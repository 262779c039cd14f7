use vstd::prelude::*;

verus! {

/// True iff `c` is an ASCII decimal digit.
pub open spec fn spec_is_digit(c: u8) -> bool {
    48 <= c <= 57
}

/// The number of codewords the default (ASCII) encodation needs for the
/// characters of `s`: a pair of adjacent digits shares one codeword, a
/// character beyond the ASCII range takes two (an upper shift and the
/// character), and any other character takes one.
pub open spec fn ascii_size(s: Seq<u8>) -> nat
    decreases s.len(),
{
    if s.len() == 0 {
        0
    } else if s.len() >= 2 && spec_is_digit(s[0]) && spec_is_digit(s[1]) {
        1 + ascii_size(s.skip(2))
    } else if s[0] >= 128 {
        2 + ascii_size(s.skip(1))
    } else {
        1 + ascii_size(s.skip(1))
    }
}

/// The number of codewords the default (ASCII) encodation needs for the
/// characters of `data`.
pub fn encoding_size(data: &[u8]) -> (r: usize)
    requires
        data@.len() <= usize::MAX / 2,
    ensures
        r == ascii_size(data@),
{
    let n: usize = data.len();
    proof {
        assert(data@.skip(0) =~= data@);
    }
    let mut i: usize = 0;
    let mut count: usize = 0;
    while i < n
        invariant
            n == data@.len(),
            n <= usize::MAX / 2,
            i <= n,
            count <= 2 * i,
            count + ascii_size(data@.skip(i as int)) == ascii_size(data@),
        decreases n - i,
    {
        let ch: u8 = data[i];
        if 48 <= ch && ch <= 57 && i + 1 < n && 48 <= data[i + 1] && data[i + 1] <= 57 {
            proof {
                assert(data@.skip(i as int).skip(2) =~= data@.skip(i + 2));
            }
            count = count + 1;
            i = i + 2;
        } else if ch >= 128 {
            proof {
                assert(data@.skip(i as int).skip(1) =~= data@.skip(i + 1));
            }
            count = count + 2;
            i = i + 1;
        } else {
            proof {
                assert(data@.skip(i as int).skip(1) =~= data@.skip(i + 1));
            }
            count = count + 1;
            i = i + 1;
        }
    }
    count
}

} // verus!
