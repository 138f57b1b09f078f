//! The binary image encoding: an ASCII `P6` header followed by three raw
//! bytes per pixel, row-major, in the component order `c0, c1, c2` of the
//! packed color.

use vstd::prelude::*;

use crate::GraphikBuffer;

verus! {

/// The three exported bytes of one packed color, lowest component first.
pub open spec fn color_bytes(p: u32) -> Seq<u8> {
    seq![(p & 0xff) as u8, ((p >> 8) & 0xff) as u8, ((p >> 16) & 0xff) as u8]
}

/// The exported bytes of a pixel sequence: three bytes per pixel, in order.
pub open spec fn pixels_bytes(s: Seq<u32>) -> Seq<u8>
    decreases s.len(),
{
    if s.len() == 0 {
        Seq::empty()
    } else {
        pixels_bytes(s.drop_last()) + color_bytes(s.last())
    }
}

/// The ASCII decimal digits of `n`, most significant first.
pub open spec fn dec_bytes(n: int) -> Seq<u8>
    decreases n,
{
    if n < 10 {
        seq![(48 + n) as u8]
    } else {
        dec_bytes(n / 10) + seq![(48 + n % 10) as u8]
    }
}

/// The ASCII header `P6\n<width> <height> 255\n`.
pub open spec fn header_bytes(w: int, h: int) -> Seq<u8> {
    seq![80u8, 54u8, 10u8] + dec_bytes(w) + seq![32u8] + dec_bytes(h) + seq![
        32u8,
        50u8,
        53u8,
        53u8,
        10u8,
    ]
}

/// The whole exported image: header, then the buffer's pixels.
pub open spec fn ppm_encoding(b: GraphikBuffer) -> Seq<u8> {
    header_bytes(b.width as int, b.height as int) + pixels_bytes(b.buffer@)
}

/// Append the decimal digits of `n` to `out`.
fn push_decimal(out: &mut Vec<u8>, n: usize)
    ensures
        final(out)@ == old(out)@ + dec_bytes(n as int),
{
    let base = out.len();
    let mut cur: usize = n;
    let ghost mut tail: Seq<u8> = Seq::empty();
    while cur >= 10
        invariant
            base == old(out)@.len(),
            out@ == old(out)@ + tail,
            dec_bytes(n as int) == dec_bytes(cur as int) + tail,
        decreases cur,
    {
        let digit: u8 = 48 + (cur % 10) as u8;
        out.insert(base, digit);
        proof {
            tail = seq![digit] + tail;
            assert(out@ == old(out)@ + tail);
        }
        cur = cur / 10;
    }
    let digit: u8 = 48 + (cur % 10) as u8;
    out.insert(base, digit);
    proof {
        assert(cur % 10 == cur as int);
        tail = seq![digit] + tail;
        assert(out@ == old(out)@ + tail);
    }
}

impl crate::GraphikBuilder {
    /// The bytes that the binary image export writes for this buffer.
    pub fn ppm_bytes(&self) -> (r: Vec<u8>)
        ensures
            r@ == ppm_encoding(self.buffer),
    {
        let mut out: Vec<u8> = Vec::new();
        out.push(80);  // 'P'
        out.push(54);  // '6'
        out.push(10);  // '\n'
        push_decimal(&mut out, self.buffer.width);
        out.push(32);  // ' '
        push_decimal(&mut out, self.buffer.height);
        out.push(32);  // ' '
        out.push(50);  // '2'
        out.push(53);  // '5'
        out.push(53);  // '5'
        out.push(10);  // '\n'
        proof {
            assert(out@ =~= header_bytes(
                self.buffer.width as int,
                self.buffer.height as int,
            ));
        }
        let ghost header = out@;
        let len = self.buffer.buffer.len();
        let mut i: usize = 0;
        while i < len
            invariant
                i <= len,
                len == self.buffer.buffer@.len(),
                out@ == header + pixels_bytes(self.buffer.buffer@.take(i as int)),
            decreases len - i,
        {
            let p = self.buffer.buffer[i];
            out.push((p & 0xff) as u8);
            out.push(((p >> 8) & 0xff) as u8);
            out.push(((p >> 16) & 0xff) as u8);
            proof {
                let s = self.buffer.buffer@;
                assert(s.take(i + 1).drop_last() =~= s.take(i as int));
                assert(s.take(i + 1).last() == s[i as int]);
            }
            i = i + 1;
        }
        proof {
            assert(self.buffer.buffer@.take(len as int) =~= self.buffer.buffer@);
        }
        out
    }
}

} // verus!
