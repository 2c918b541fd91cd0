//! Mailbox names as servers send them: modified UTF-7 (RFC 3501), where
//! `&` opens a run of modified base64 holding UTF-16, `-` closes it, and
//! `&-` stands for `&` itself.

use vstd::prelude::*;
use crate::text::{find_char, find_char_exec, lemma_find_char};

verus! {

/// `char::from_u32`: the character with this code point, or `None` for a
/// surrogate or a value past U+10FFFF (std's documentation).
pub assume_specification[ core::char::from_u32 ](i: u32) -> (r: Option<char>)
    ensures
        r == (if i <= 0xD7FF || (0xE000 <= i && i <= 0x10FFFF) {
            Some(i as char)
        } else {
            None::<char>
        }),
;

/// A modified-base64 digit's value: `A`–`Z`, `a`–`z`, `0`–`9`, `+`, `,`.
pub open spec fn b64_value(c: char) -> int {
    let u = c as u32;
    if 65 <= u && u <= 90 {
        u - 65
    } else if 97 <= u && u <= 122 {
        u - 71
    } else if 48 <= u && u <= 57 {
        u + 4
    } else if c == '+' {
        62
    } else if c == ',' {
        63
    } else {
        -1
    }
}

/// The bytes a run of modified base64 holds: each four digits give three
/// bytes, a trailing three give two, a trailing two give one; a lone
/// trailing digit or a character outside the alphabet makes it invalid.
/// Bits left over past the last whole byte are ignored.
pub open spec fn b64_bytes(s: Seq<char>) -> Option<Seq<u8>>
    decreases s.len(),
{
    if s.len() == 0 {
        Some(seq![])
    } else if s.len() == 1 {
        None
    } else {
        let n = if s.len() >= 4 {
            4
        } else {
            s.len() as int
        };
        let v0 = b64_value(s[0]);
        let v1 = b64_value(s[1]);
        let v2 = if n >= 3 {
            b64_value(s[2])
        } else {
            0
        };
        let v3 = if n >= 4 {
            b64_value(s[3])
        } else {
            0
        };
        if v0 < 0 || v1 < 0 || v2 < 0 || v3 < 0 {
            None
        } else {
            let g = v0 * 262144 + v1 * 4096 + v2 * 64 + v3;
            let group = if n == 4 {
                seq![(g / 65536) as u8, ((g / 256) % 256) as u8, (g % 256) as u8]
            } else if n == 3 {
                seq![(g / 65536) as u8, ((g / 256) % 256) as u8]
            } else {
                seq![(g / 65536) as u8]
            };
            match b64_bytes(s.subrange(n, s.len() as int)) {
                Some(rest) => Some(group + rest),
                None => None,
            }
        }
    }
}

/// Big-endian UTF-16 code units from bytes; an odd count is invalid.
pub open spec fn units_of(b: Seq<u8>) -> Option<Seq<u32>> {
    if b.len() % 2 != 0 {
        None
    } else {
        Some(Seq::new(b.len() / 2, |k: int| ((b[2 * k] as u32) * 256 + (b[2 * k + 1] as u32)) as u32))
    }
}

/// The characters UTF-16 code units spell; an unpaired surrogate is
/// invalid.
pub open spec fn utf16_chars(u: Seq<u32>) -> Option<Seq<char>>
    decreases u.len(),
{
    if u.len() == 0 {
        Some(seq![])
    } else if u[0] < 0xD800 || u[0] > 0xDFFF {
        match utf16_chars(u.drop_first()) {
            Some(rest) => Some(seq![u[0] as char] + rest),
            None => None,
        }
    } else if u[0] <= 0xDBFF && u.len() >= 2 && 0xDC00 <= u[1] && u[1] <= 0xDFFF {
        let cp = 0x10000 + (u[0] - 0xD800) * 0x400 + (u[1] - 0xDC00);
        match utf16_chars(u.subrange(2, u.len() as int)) {
            Some(rest) => Some(seq![cp as char] + rest),
            None => None,
        }
    } else {
        None
    }
}

/// The characters a run of modified base64 encodes.
pub open spec fn shifted(s: Seq<char>) -> Option<Seq<char>> {
    match b64_bytes(s) {
        Some(b) => match units_of(b) {
            Some(u) => utf16_chars(u),
            None => None,
        },
        None => None,
    }
}

/// `s[i..]` decoded: characters stand for themselves, `&-` for `&`, and
/// `&…-` for what its base64 encodes; an unclosed or malformed run makes
/// the whole invalid.
pub open spec fn decode_from(s: Seq<char>, i: int) -> Option<Seq<char>>
    decreases s.len() - i,
{
    if i < 0 || i >= s.len() {
        Some(seq![])
    } else if s[i] != '&' {
        match decode_from(s, i + 1) {
            Some(rest) => Some(seq![s[i]] + rest),
            None => None,
        }
    } else {
        match find_char(s, '-', i + 1) {
            None => None,
            Some(j) => {
                proof {
                    lemma_find_char(s, '-', i + 1);
                }
                let here = if j == i + 1 {
                    Some(seq!['&'])
                } else {
                    shifted(s.subrange(i + 1, j))
                };
                match (here, decode_from(s, j + 1)) {
                    (Some(h), Some(rest)) => Some(h + rest),
                    _ => None,
                }
            },
        }
    }
}

/// A mailbox name decoded from modified UTF-7; a name that is not valid
/// modified UTF-7 is shown as it is.
pub open spec fn mutf7_decoded(s: Seq<char>) -> Seq<char> {
    match decode_from(s, 0) {
        Some(d) => d,
        None => s,
    }
}

proof fn lemma_plain_from(s: Seq<char>, i: int)
    requires
        0 <= i <= s.len(),
        !s.contains('&'),
    ensures
        decode_from(s, i) == Some(s.subrange(i, s.len() as int)),
    decreases s.len() - i,
{
    if i < s.len() {
        assert(s[i] != '&') by {
            if s[i] == '&' {
                assert(s.contains('&'));
            }
        }
        lemma_plain_from(s, i + 1);
        assert(seq![s[i]] + s.subrange(i + 1, s.len() as int) =~= s.subrange(i, s.len() as int));
    } else {
        assert(s.subrange(i, s.len() as int) =~= Seq::<char>::empty());
    }
}

/// A name with no `&` has nothing to decode and is shown as it is.
pub proof fn law_plain_names_unchanged(s: Seq<char>)
    requires
        !s.contains('&'),
    ensures
        mutf7_decoded(s) == s,
{
    lemma_plain_from(s, 0);
    assert(s.subrange(0, s.len() as int) =~= s);
}

fn b64_value_exec(c: char) -> (r: i64)
    ensures
        r == b64_value(c),
{
    let u = c as u32;
    if 65 <= u && u <= 90 {
        (u - 65) as i64
    } else if 97 <= u && u <= 122 {
        (u - 71) as i64
    } else if 48 <= u && u <= 57 {
        (u + 4) as i64
    } else if c == '+' {
        62
    } else if c == ',' {
        63
    } else {
        -1
    }
}

/// The bytes of `s[from..to]` as modified base64.
fn b64_bytes_exec(s: &Vec<char>, from: usize, to: usize) -> (r: Option<Vec<u8>>)
    requires
        from <= to <= s.len(),
    ensures
        match r {
            Some(b) => b64_bytes(s@.subrange(from as int, to as int)) == Some(b@),
            None => b64_bytes(s@.subrange(from as int, to as int)) is None,
        },
{
    let ghost t = s@.subrange(from as int, to as int);
    let mut out: Vec<u8> = Vec::new();
    let mut i: usize = from;
    assert(t.subrange(0, t.len() as int) =~= t);
    proof {
        match b64_bytes(t) {
            Some(x) => {
                assert(out@ + x =~= x);
            },
            None => {},
        }
    }
    while i < to
        invariant
            from <= i <= to <= s.len(),
            t == s@.subrange(from as int, to as int),
            b64_bytes(t) == (match b64_bytes(t.subrange(i - from, t.len() as int)) {
                Some(rest) => Some(out@ + rest),
                None => None::<Seq<u8>>,
            }),
        decreases to - i,
    {
        let left = to - i;
        let ghost u = t.subrange(i - from, t.len() as int);
        assert(u =~= s@.subrange(i as int, to as int));
        if left == 1 {
            return None;
        }
        let n: usize = if left >= 4 {
            4
        } else {
            left
        };
        let v0 = b64_value_exec(s[i]);
        let v1 = b64_value_exec(s[i + 1]);
        let v2 = if n >= 3 {
            b64_value_exec(s[i + 2])
        } else {
            0
        };
        let v3 = if n >= 4 {
            b64_value_exec(s[i + 3])
        } else {
            0
        };
        assert(u[0] == s@[i as int] && u[1] == s@[i + 1]);
        assert(n >= 3 ==> u[2] == s@[i + 2]);
        assert(n >= 4 ==> u[3] == s@[i + 3]);
        if v0 < 0 || v1 < 0 || v2 < 0 || v3 < 0 {
            return None;
        }
        let g: i64 = v0 * 262144 + v1 * 4096 + v2 * 64 + v3;
        let ghost before = out@;
        out.push((g / 65536) as u8);
        if n >= 3 {
            out.push(((g / 256) % 256) as u8);
        }
        if n == 4 {
            out.push((g % 256) as u8);
        }
        let ghost group = if n == 4 {
            seq![(g / 65536) as u8, ((g / 256) % 256) as u8, (g % 256) as u8]
        } else if n == 3 {
            seq![(g / 65536) as u8, ((g / 256) % 256) as u8]
        } else {
            seq![(g / 65536) as u8]
        };
        assert(out@ =~= before + group);
        assert(u.subrange(n as int, u.len() as int) =~= t.subrange(i + n - from, t.len() as int));
        i += n;
    }
    assert(t.subrange(to - from, t.len() as int) =~= Seq::<char>::empty());
    assert(out@ + Seq::<u8>::empty() =~= out@);
    Some(out)
}

/// The characters UTF-16 units spell, from position `k` on.
fn utf16_exec(u: &Vec<u32>) -> (r: Option<Vec<char>>)
    requires
        forall|k: int| 0 <= k < u@.len() ==> #[trigger] u@[k] <= 0xFFFF,
    ensures
        match r {
            Some(c) => utf16_chars(u@) == Some(c@),
            None => utf16_chars(u@) is None,
        },
{
    let mut out: Vec<char> = Vec::new();
    let mut k: usize = 0;
    assert(u@.subrange(0, u@.len() as int) =~= u@);
    proof {
        match utf16_chars(u@) {
            Some(x) => {
                assert(out@ + x =~= x);
            },
            None => {},
        }
    }
    while k < u.len()
        invariant
            k <= u.len(),
            forall|x: int| 0 <= x < u@.len() ==> #[trigger] u@[x] <= 0xFFFF,
            utf16_chars(u@) == (match utf16_chars(u@.subrange(k as int, u@.len() as int)) {
                Some(rest) => Some(out@ + rest),
                None => None::<Seq<char>>,
            }),
        decreases u.len() - k,
    {
        let ghost v = u@.subrange(k as int, u@.len() as int);
        let a = u[k];
        assert(v[0] == a);
        if a < 0xD800 || a > 0xDFFF {
            let c = match core::char::from_u32(a) {
                Some(c) => c,
                None => {
                    return None;
                },
            };
            let ghost before = out@;
            out.push(c);
            assert(v.drop_first() =~= u@.subrange(k + 1, u@.len() as int));
            assert(out@ =~= before + seq![a as char]);
            k += 1;
        } else if a <= 0xDBFF && k + 1 < u.len() && 0xDC00 <= u[k + 1] && u[k + 1] <= 0xDFFF {
            let b = u[k + 1];
            assert(v[1] == b);
            let cp: u32 = 0x10000 + (a - 0xD800) * 0x400 + (b - 0xDC00);
            let c = match core::char::from_u32(cp) {
                Some(c) => c,
                None => {
                    return None;
                },
            };
            let ghost before = out@;
            out.push(c);
            assert(v.subrange(2, v.len() as int) =~= u@.subrange(k + 2, u@.len() as int));
            assert(out@ =~= before + seq![cp as char]);
            k += 2;
        } else {
            return None;
        }
    }
    assert(u@.subrange(u@.len() as int, u@.len() as int) =~= Seq::<u32>::empty());
    assert(out@ + Seq::<char>::empty() =~= out@);
    Some(out)
}

fn shifted_exec(s: &Vec<char>, from: usize, to: usize) -> (r: Option<Vec<char>>)
    requires
        from <= to <= s.len(),
    ensures
        match r {
            Some(c) => shifted(s@.subrange(from as int, to as int)) == Some(c@),
            None => shifted(s@.subrange(from as int, to as int)) is None,
        },
{
    let b = match b64_bytes_exec(s, from, to) {
        Some(b) => b,
        None => {
            return None;
        },
    };
    if b.len() % 2 != 0 {
        return None;
    }
    let mut u: Vec<u32> = Vec::new();
    let mut k: usize = 0;
    while k < b.len() / 2
        invariant
            k <= b.len() / 2,
            b.len() % 2 == 0,
            u@.len() == k,
            forall|x: int| 0 <= x < k ==> #[trigger] u@[x] == ((b@[2 * x] as u32) * 256 + (b@[2 * x + 1] as u32)) as u32,
            forall|x: int| 0 <= x < k ==> #[trigger] u@[x] <= 0xFFFF,
        decreases b.len() / 2 - k,
    {
        let hi = b[2 * k] as u32;
        let lo = b[2 * k + 1] as u32;
        u.push(hi * 256 + lo);
        k += 1;
    }
    assert(units_of(b@) == Some(u@)) by {
        assert(u@ =~= Seq::new(b@.len() / 2, |x: int| ((b@[2 * x] as u32) * 256 + (b@[2 * x + 1] as u32)) as u32));
    }
    utf16_exec(&u)
}

/// Decodes a mailbox name from modified UTF-7; a name that is not valid
/// modified UTF-7 comes back as it is.
pub fn decode_mutf7(s: &Vec<char>) -> (r: Vec<char>)
    ensures
        r@ == mutf7_decoded(s@),
{
    let mut out: Vec<char> = Vec::new();
    let mut i: usize = 0;
    while i < s.len()
        invariant
            i <= s.len(),
            decode_from(s@, 0) == (match decode_from(s@, i as int) {
                Some(rest) => Some(out@ + rest),
                None => None::<Seq<char>>,
            }),
        decreases s.len() - i,
    {
        if s[i] != '&' {
            let ghost before = out@;
            out.push(s[i]);
            assert(out@ =~= before + seq![s@[i as int]]);
            i += 1;
        } else {
            proof {
                lemma_find_char(s@, '-', i + 1);
            }
            let j = match find_char_exec(s, '-', i + 1) {
                Some(j) => j,
                None => {
                    return crate::text::slice_of(s, 0, s.len());
                },
            };
            if j == i + 1 {
                let ghost before = out@;
                out.push('&');
                assert(out@ =~= before + seq!['&']);
            } else {
                match shifted_exec(s, i + 1, j) {
                    Some(c) => {
                        let ghost before = out@;
                        crate::text::push_all(&mut out, &c);
                    },
                    None => {
                        return crate::text::slice_of(s, 0, s.len());
                    },
                }
            }
            i = j + 1;
        }
    }
    assert(out@ + Seq::<char>::empty() =~= out@);
    out
}

} // verus!
