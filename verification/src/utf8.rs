//! A verified UTF-8 validity check for the strings carried in metadata
//! records.

use vstd::prelude::*;

verus! {

/// True of UTF-8 continuation bytes.
pub open spec fn is_cont(b: u8) -> bool {
    0x80 <= b <= 0xBF
}

/// Length in bytes of the well-formed UTF-8 character at the head of `s`,
/// or 0 when the head is not one.
pub open spec fn utf8_char_len(s: Seq<u8>) -> int {
    if s.len() == 0 {
        0
    } else {
        let b0 = s[0];
        if b0 <= 0x7F {
            1
        } else if 0xC2 <= b0 <= 0xDF {
            if s.len() >= 2 && is_cont(s[1]) {
                2
            } else {
                0
            }
        } else if b0 == 0xE0 {
            if s.len() >= 3 && 0xA0 <= s[1] <= 0xBF && is_cont(s[2]) {
                3
            } else {
                0
            }
        } else if 0xE1 <= b0 <= 0xEC || b0 == 0xEE || b0 == 0xEF {
            if s.len() >= 3 && is_cont(s[1]) && is_cont(s[2]) {
                3
            } else {
                0
            }
        } else if b0 == 0xED {
            if s.len() >= 3 && 0x80 <= s[1] <= 0x9F && is_cont(s[2]) {
                3
            } else {
                0
            }
        } else if b0 == 0xF0 {
            if s.len() >= 4 && 0x90 <= s[1] <= 0xBF && is_cont(s[2]) && is_cont(s[3]) {
                4
            } else {
                0
            }
        } else if 0xF1 <= b0 <= 0xF3 {
            if s.len() >= 4 && is_cont(s[1]) && is_cont(s[2]) && is_cont(s[3]) {
                4
            } else {
                0
            }
        } else if b0 == 0xF4 {
            if s.len() >= 4 && 0x80 <= s[1] <= 0x8F && is_cont(s[2]) && is_cont(s[3]) {
                4
            } else {
                0
            }
        } else {
            0
        }
    }
}

/// A byte sequence is valid UTF-8 when it is a concatenation of well-formed
/// characters.
pub open spec fn is_utf8(s: Seq<u8>) -> bool
    decreases s.len(),
{
    s.len() == 0 || {
        let k = utf8_char_len(s);
        k > 0 && is_utf8(s.skip(k))
    }
}

/// Length in bytes of the well-formed UTF-8 character starting at `pos`,
/// or 0 when there is none.
fn char_len_at(v: &[u8], pos: usize) -> (r: usize)
    requires
        pos < v@.len(),
    ensures
        r == utf8_char_len(v@.skip(pos as int)),
        r <= v@.len() - pos,
{
    let ghost s = v@.skip(pos as int);
    let n = v.len();
    let rem = n - pos;
    let b0 = v[pos];
    proof {
        assert(s[0] == v@[pos as int]);
        assert(s.len() == n - pos);
        if s.len() >= 2 {
            assert(s[1] == v@[pos + 1]);
        }
        if s.len() >= 3 {
            assert(s[2] == v@[pos + 2]);
        }
        if s.len() >= 4 {
            assert(s[3] == v@[pos + 3]);
        }
    }
    if b0 <= 0x7F {
        1
    } else if 0xC2 <= b0 && b0 <= 0xDF {
        if rem >= 2 && 0x80 <= v[pos + 1] && v[pos + 1] <= 0xBF {
            2
        } else {
            0
        }
    } else if b0 == 0xE0 {
        if rem >= 3 && 0xA0 <= v[pos + 1] && v[pos + 1] <= 0xBF && 0x80 <= v[pos + 2] && v[pos
            + 2] <= 0xBF {
            3
        } else {
            0
        }
    } else if (0xE1 <= b0 && b0 <= 0xEC) || b0 == 0xEE || b0 == 0xEF {
        if rem >= 3 && 0x80 <= v[pos + 1] && v[pos + 1] <= 0xBF && 0x80 <= v[pos + 2] && v[pos
            + 2] <= 0xBF {
            3
        } else {
            0
        }
    } else if b0 == 0xED {
        if rem >= 3 && 0x80 <= v[pos + 1] && v[pos + 1] <= 0x9F && 0x80 <= v[pos + 2] && v[pos
            + 2] <= 0xBF {
            3
        } else {
            0
        }
    } else if b0 == 0xF0 {
        if rem >= 4 && 0x90 <= v[pos + 1] && v[pos + 1] <= 0xBF && 0x80 <= v[pos + 2] && v[pos
            + 2] <= 0xBF && 0x80 <= v[pos + 3] && v[pos + 3] <= 0xBF {
            4
        } else {
            0
        }
    } else if 0xF1 <= b0 && b0 <= 0xF3 {
        if rem >= 4 && 0x80 <= v[pos + 1] && v[pos + 1] <= 0xBF && 0x80 <= v[pos + 2] && v[pos
            + 2] <= 0xBF && 0x80 <= v[pos + 3] && v[pos + 3] <= 0xBF {
            4
        } else {
            0
        }
    } else if b0 == 0xF4 {
        if rem >= 4 && 0x80 <= v[pos + 1] && v[pos + 1] <= 0x8F && 0x80 <= v[pos + 2] && v[pos
            + 2] <= 0xBF && 0x80 <= v[pos + 3] && v[pos + 3] <= 0xBF {
            4
        } else {
            0
        }
    } else {
        0
    }
}

/// Decides [`is_utf8`].
#[verifier::loop_isolation(false)]
pub fn is_utf8_exec(v: &[u8]) -> (r: bool)
    ensures
        r == is_utf8(v@),
{
    let n = v.len();
    let mut pos: usize = 0;
    proof {
        assert(v@.skip(0) =~= v@);
    }
    while pos < n
        invariant
            pos <= n,
            is_utf8(v@) == is_utf8(v@.skip(pos as int)),
        decreases n - pos,
    {
        let k = char_len_at(v, pos);
        if k == 0 {
            proof {
                assert(!is_utf8(v@.skip(pos as int)));
            }
            return false;
        }
        proof {
            assert(v@.skip(pos as int).skip(k as int) =~= v@.skip(pos + k));
            assert(is_utf8(v@.skip(pos as int)) == is_utf8(v@.skip(pos + k)));
        }
        pos = pos + k;
    }
    proof {
        assert(v@.skip(pos as int).len() == 0);
        assert(is_utf8(v@.skip(pos as int)));
    }
    true
}

} // verus!
