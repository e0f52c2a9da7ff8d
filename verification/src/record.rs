//! The credential record and its serialized form.
//!
//! A record is the pair of a username and a password, held as their UTF-8
//! bytes.  Its serialized form is the JSON object
//! `{"username":"<u>","password":"<p>"}` where each field is escaped: `"`
//! and `\` get a backslash escape, control bytes become `\u00xx` with
//! lowercase hex digits, and every other byte stands for itself.  The parser
//! accepts exactly the strings this encoding produces.

use vstd::prelude::*;

use crate::hexcodec::hex_digit;

verus! {

/// One credential pair, as the UTF-8 bytes of its two fields.
pub struct AuthRecord {
    pub username: Vec<u8>,
    pub password: Vec<u8>,
}

/// How one byte of a field is escaped inside the serialized record.
pub open spec fn esc_byte(b: u8) -> Seq<u8> {
    if b == 0x22 {
        seq![0x5c, 0x22]
    } else if b == 0x5c {
        seq![0x5c, 0x5c]
    } else if b < 0x20 {
        seq![0x5c, 0x75, 0x30, 0x30, hex_digit(b / 16), hex_digit(b % 16)]
    } else {
        seq![b]
    }
}

/// The escaped form of a whole field.
pub open spec fn esc(s: Seq<u8>) -> Seq<u8>
    decreases s.len(),
{
    if s.len() == 0 {
        Seq::empty()
    } else {
        esc_byte(s[0]) + esc(s.drop_first())
    }
}

/// The bytes of `{"username":"`.
pub open spec fn record_prefix() -> Seq<u8> {
    seq![0x7b, 0x22, 0x75, 0x73, 0x65, 0x72, 0x6e, 0x61, 0x6d, 0x65, 0x22, 0x3a, 0x22]
}

/// The bytes of `","password":"`.
pub open spec fn record_infix() -> Seq<u8> {
    seq![0x22, 0x2c, 0x22, 0x70, 0x61, 0x73, 0x73, 0x77, 0x6f, 0x72, 0x64, 0x22, 0x3a, 0x22]
}

/// The bytes of `"}`.
pub open spec fn record_suffix() -> Seq<u8> {
    seq![0x22, 0x7d]
}

/// The serialized record for a username and a password.
pub open spec fn enc_record(u: Seq<u8>, p: Seq<u8>) -> Seq<u8> {
    record_prefix() + esc(u) + record_infix() + esc(p) + record_suffix()
}

/// Escaping one more byte appends that byte's escape.
pub proof fn lemma_esc_snoc(s: Seq<u8>, b: u8)
    ensures
        esc(s.push(b)) == esc(s) + esc_byte(b),
    decreases s.len(),
{
    if s.len() == 0 {
        assert(s.push(b)[0] == b);
        assert(s.push(b).drop_first() =~= Seq::<u8>::empty());
        assert(esc(s.push(b)) == esc_byte(b) + esc(Seq::<u8>::empty()));
        assert(esc(s.push(b)) =~= esc(s) + esc_byte(b));
    } else {
        lemma_esc_snoc(s.drop_first(), b);
        assert(s.push(b).drop_first() =~= s.drop_first().push(b));
        assert(esc(s.push(b)) =~= esc(s) + esc_byte(b));
    }
}

/// The lowercase hex digit of a nibble, computed.
fn to_hex_digit(n: u8) -> (r: u8)
    requires
        n < 16,
    ensures
        r == hex_digit(n),
{
    if n < 10 {
        0x30 + n
    } else {
        0x57 + n
    }
}

/// Appends the escaped form of `s` to `out`.
fn push_escaped(out: &mut Vec<u8>, s: &[u8])
    ensures
        final(out)@ == old(out)@ + esc(s@),
{
    let mut i: usize = 0;
    while i < s.len()
        invariant
            i <= s@.len(),
            out@ == old(out)@ + esc(s@.subrange(0, i as int)),
        decreases s@.len() - i,
    {
        let b = s[i];
        proof {
            lemma_esc_snoc(s@.subrange(0, i as int), b);
            assert(s@.subrange(0, i as int).push(b) =~= s@.subrange(0, i + 1 as int));
        }
        if b == 0x22 {
            out.push(0x5c);
            out.push(0x22);
        } else if b == 0x5c {
            out.push(0x5c);
            out.push(0x5c);
        } else if b < 0x20 {
            out.push(0x5c);
            out.push(0x75);
            out.push(0x30);
            out.push(0x30);
            out.push(to_hex_digit(b / 16));
            out.push(to_hex_digit(b % 16));
        } else {
            out.push(b);
        }
        proof {
            assert(out@ =~= old(out)@ + esc(s@.subrange(0, i + 1 as int)));
        }
        i = i + 1;
    }
    proof {
        assert(s@.subrange(0, s@.len() as int) =~= s@);
    }
}

/// Appends all of `s` to `out`.
pub(crate) fn push_all(out: &mut Vec<u8>, s: &[u8])
    ensures
        final(out)@ == old(out)@ + s@,
{
    let mut i: usize = 0;
    while i < s.len()
        invariant
            i <= s@.len(),
            out@ == old(out)@ + s@.subrange(0, i as int),
        decreases s@.len() - i,
    {
        out.push(s[i]);
        proof {
            assert(out@ =~= old(out)@ + s@.subrange(0, i + 1 as int));
        }
        i = i + 1;
    }
    proof {
        assert(s@.subrange(0, s@.len() as int) =~= s@);
    }
}

/// The bytes of `{"username":"`, computed.
fn record_prefix_bytes() -> (r: Vec<u8>)
    ensures
        r@ == record_prefix(),
{
    let mut v: Vec<u8> = Vec::new();
    v.push(0x7b);
    v.push(0x22);
    v.push(0x75);
    v.push(0x73);
    v.push(0x65);
    v.push(0x72);
    v.push(0x6e);
    v.push(0x61);
    v.push(0x6d);
    v.push(0x65);
    v.push(0x22);
    v.push(0x3a);
    v.push(0x22);
    proof {
        assert(v@ =~= record_prefix());
    }
    v
}

/// The bytes of `","password":"`, computed.
fn record_infix_bytes() -> (r: Vec<u8>)
    ensures
        r@ == record_infix(),
{
    let mut v: Vec<u8> = Vec::new();
    v.push(0x22);
    v.push(0x2c);
    v.push(0x22);
    v.push(0x70);
    v.push(0x61);
    v.push(0x73);
    v.push(0x73);
    v.push(0x77);
    v.push(0x6f);
    v.push(0x72);
    v.push(0x64);
    v.push(0x22);
    v.push(0x3a);
    v.push(0x22);
    proof {
        assert(v@ =~= record_infix());
    }
    v
}

/// Serializes the record for `username` and `password`.
pub fn encode_record(username: &[u8], password: &[u8]) -> (r: Vec<u8>)
    ensures
        r@ == enc_record(username@, password@),
{
    let mut out = record_prefix_bytes();
    push_escaped(&mut out, username);
    let infix = record_infix_bytes();
    push_all(&mut out, infix.as_slice());
    push_escaped(&mut out, password);
    out.push(0x22);
    out.push(0x7d);
    proof {
        assert(out@ =~= enc_record(username@, password@));
    }
    out
}

/// True exactly when the bytes of `m` stand at position `i` of `s`.
fn matches_at(s: &[u8], i: usize, m: &[u8]) -> (r: bool)
    requires
        i <= s@.len(),
    ensures
        r <==> (i + m@.len() <= s@.len() && s@.subrange(i as int, i + m@.len()) == m@),
{
    if s.len() - i < m.len() {
        return false;
    }
    let mut k: usize = 0;
    while k < m.len()
        invariant
            i + m@.len() <= s@.len() <= usize::MAX,
            k <= m@.len(),
            forall|t: int| 0 <= t < k ==> s@[i + t] == m@[t],
        decreases m@.len() - k,
    {
        if s[i + k] != m[k] {
            proof {
                assert(s@.subrange(i as int, i + m@.len())[k as int] == s@[i + k]);
            }
            return false;
        }
        k = k + 1;
    }
    proof {
        assert(s@.subrange(i as int, i + m@.len()) =~= m@);
    }
    true
}

/// Scans the escaped content of one field, starting at `i`, up to its
/// closing unescaped quote.  On success it returns the unescaped field and
/// the position of the closing quote; it fails on a malformed escape, a raw
/// control byte, a raw backslash at the end, or a missing closing quote.
///
/// The second postcondition says the scan is complete: wherever the input
/// from `i` on is an escaped field followed by a quote, the scan finds
/// exactly that field.
fn scan_content(s: &[u8], i: usize) -> (r: Option<(Vec<u8>, usize)>)
    requires
        i <= s@.len(),
    ensures
        r matches Some(oj) ==> {
            &&& i <= oj.1 < s@.len()
            &&& s@[oj.1 as int] == 0x22
            &&& s@.subrange(i as int, oj.1 as int) == esc(oj.0@)
        },
        forall|u: Seq<u8>, rest: Seq<u8>|
            s@.subrange(i as int, s@.len() as int) == #[trigger] (esc(u) + seq![0x22u8] + rest)
                ==> (r matches Some(oj) && oj.0@ == u && oj.1 == i + esc(u).len()),
    decreases s@.len() - i,
{
    let ghost whole: Seq<u8> = s@.subrange(i as int, s@.len() as int);
    if i == s.len() {
        proof {
            assert forall|u: Seq<u8>, rest: Seq<u8>|
                whole == #[trigger] (esc(u) + seq![0x22u8] + rest) implies false by {
                assert(whole.len() == 0);
                assert((esc(u) + seq![0x22u8] + rest).len() >= 1);
            }
        }
        return None;
    }
    let b = s[i];
    proof {
        assert(whole[0] == b);
        assert forall|u: Seq<u8>, rest: Seq<u8>|
            whole == #[trigger] (esc(u) + seq![0x22u8] + rest) && u.len() > 0 implies {
            &&& esc(u) == esc_byte(u[0]) + esc(u.drop_first())
            &&& esc_byte(u[0])[0] == b
            &&& (esc_byte(u[0])[0] == 0x5c || esc_byte(u[0]) == seq![u[0]])
        } by {
            assert(esc(u) == esc_byte(u[0]) + esc(u.drop_first()));
            assert(esc_byte(u[0]).len() >= 1);
            assert(whole[0] == esc_byte(u[0])[0]);
        }
    }
    if b == 0x22 {
        let out: Vec<u8> = Vec::new();
        proof {
            assert(s@.subrange(i as int, i as int) =~= esc(out@));
            assert forall|u: Seq<u8>, rest: Seq<u8>|
                whole == #[trigger] (esc(u) + seq![0x22u8] + rest) implies u.len() == 0 by {
                if u.len() > 0 {
                    assert(esc_byte(u[0])[0] == b);
                }
            }
        }
        return Some((out, i));
    }
    if b == 0x5c {
        // an escape: at least one more byte must follow
        proof {
            assert forall|u: Seq<u8>, rest: Seq<u8>|
                whole == #[trigger] (esc(u) + seq![0x22u8] + rest) implies {
                &&& u.len() > 0
                &&& esc_byte(u[0]).len() >= 2
                &&& whole.len() > esc_byte(u[0]).len()
                &&& forall|k: int|
                    0 <= k < esc_byte(u[0]).len() ==> whole[k] == esc_byte(u[0])[k]
            } by {
                assert(u.len() > 0);
                assert(esc_byte(u[0])[0] == 0x5c);
                assert(esc(u).len() >= esc_byte(u[0]).len());
            }
        }
        if s.len() - i < 2 {
            proof {
                assert forall|u: Seq<u8>, rest: Seq<u8>|
                    whole == #[trigger] (esc(u) + seq![0x22u8] + rest) implies false by {
                    assert(whole.len() >= 3);
                }
            }
            return None;
        }
        let e = s[i + 1];
        proof {
            assert(whole[1] == e);
        }
        if e == 0x22 || e == 0x5c {
            // a quote or a backslash stands for itself
            let decoded = e;
            proof {
                assert(esc_byte(decoded) =~= seq![0x5cu8, decoded]);
                assert(s@.subrange(i as int, i + 2) =~= seq![0x5cu8, decoded]);
                assert forall|u: Seq<u8>, rest: Seq<u8>|
                    whole == #[trigger] (esc(u) + seq![0x22u8] + rest) implies esc_byte(
                    u[0],
                ).len() == 2 by {
                    assert(esc_byte(u[0])[1] == whole[1]);
                }
            }
            match scan_content(s, i + 2) {
                Some((mut out, j)) => {
                    proof {
                        assert(s@.subrange(i as int, j as int) =~= esc_byte(decoded) + s@.subrange(
                            i + 2,
                            j as int,
                        ));
                    }
                    let ghost out0 = out@;
                    out.insert(0, decoded);
                    proof {
                        assert(out@ =~= seq![decoded] + out0);
                        assert(out@[0] == decoded);
                        assert(out@.drop_first() =~= out0);
                        assert(esc(out@) == esc_byte(decoded) + esc(out0));
                        assert(s@.subrange(i as int, j as int) == esc(out@));
                        assert forall|u: Seq<u8>, rest: Seq<u8>|
                            whole == #[trigger] (esc(u) + seq![0x22u8] + rest) implies (out@ == u
                            && j == i + esc(u).len()) by {
                            lemma_scan_step(s@, i as int, u, rest, decoded);
                            assert(s@.subrange(i + 2, s@.len() as int) == esc(u.drop_first())
                                + seq![0x22u8] + rest);
                        }
                    }
                    Some((out, j))
                },
                None => {
                    proof {
                        assert forall|u: Seq<u8>, rest: Seq<u8>|
                            whole == #[trigger] (esc(u) + seq![0x22u8] + rest) implies false by {
                            lemma_scan_step(s@, i as int, u, rest, decoded);
                            assert(s@.subrange(i + 2, s@.len() as int) == esc(u.drop_first())
                                + seq![0x22u8] + rest);
                        }
                    }
                    None
                },
            }
        } else if e == 0x75 {
            // a `\u00xx` escape of one control byte
            proof {
                assert forall|u: Seq<u8>, rest: Seq<u8>|
                    whole == #[trigger] (esc(u) + seq![0x22u8] + rest) implies {
                    &&& u[0] < 0x20
                    &&& esc_byte(u[0]).len() == 6
                    &&& whole.len() >= 7
                } by {
                    assert(esc_byte(u[0])[1] == e);
                    assert(u[0] != 0x22 && u[0] != 0x5c);
                }
            }
            if s.len() - i < 6 {
                proof {
                    assert forall|u: Seq<u8>, rest: Seq<u8>|
                        whole == #[trigger] (esc(u) + seq![0x22u8] + rest) implies false by {
                        assert(whole.len() >= 7);
                    }
                }
                return None;
            }
            let z1 = s[i + 2];
            let z2 = s[i + 3];
            let h1 = s[i + 4];
            let h2 = s[i + 5];
            proof {
                assert(whole[2] == z1 && whole[3] == z2 && whole[4] == h1 && whole[5] == h2);
            }
            let v1: u8 = if h1 == 0x30 {
                0
            } else if h1 == 0x31 {
                1
            } else {
                2
            };
            let v2: u8 = if 0x30 <= h2 && h2 <= 0x39 {
                h2 - 0x30
            } else if 0x61 <= h2 && h2 <= 0x66 {
                h2 - 0x61 + 10
            } else {
                16
            };
            if z1 != 0x30 || z2 != 0x30 || v1 == 2 || v2 == 16 {
                proof {
                    assert forall|u: Seq<u8>, rest: Seq<u8>|
                        whole == #[trigger] (esc(u) + seq![0x22u8] + rest) implies false by {
                        assert(whole[2] == 0x30 && whole[3] == 0x30);
                        assert(whole[4] == hex_digit(u[0] / 16));
                        assert(whole[5] == hex_digit(u[0] % 16));
                    }
                }
                return None;
            }
            let decoded: u8 = v1 * 16 + v2;
            proof {
                assert(decoded < 0x20);
                assert(decoded / 16 == v1 && decoded % 16 == v2);
                assert(hex_digit(v1) == h1 && hex_digit(v2) == h2);
                assert(esc_byte(decoded) =~= seq![0x5cu8, 0x75u8, 0x30u8, 0x30u8, h1, h2]);
                assert(s@.subrange(i as int, i + 6) =~= seq![0x5cu8, 0x75u8, 0x30u8, 0x30u8, h1, h2]);
            }
            match scan_content(s, i + 6) {
                Some((mut out, j)) => {
                    proof {
                        assert(s@.subrange(i as int, j as int) =~= esc_byte(decoded) + s@.subrange(
                            i + 6,
                            j as int,
                        ));
                    }
                    let ghost out0 = out@;
                    out.insert(0, decoded);
                    proof {
                        assert(out@ =~= seq![decoded] + out0);
                        assert(out@[0] == decoded);
                        assert(out@.drop_first() =~= out0);
                        assert(esc(out@) == esc_byte(decoded) + esc(out0));
                        assert(s@.subrange(i as int, j as int) == esc(out@));
                        assert forall|u: Seq<u8>, rest: Seq<u8>|
                            whole == #[trigger] (esc(u) + seq![0x22u8] + rest) implies (out@ == u
                            && j == i + esc(u).len()) by {
                            lemma_scan_step(s@, i as int, u, rest, decoded);
                            assert(s@.subrange(i + 6, s@.len() as int) == esc(u.drop_first())
                                + seq![0x22u8] + rest);
                        }
                    }
                    Some((out, j))
                },
                None => {
                    proof {
                        assert forall|u: Seq<u8>, rest: Seq<u8>|
                            whole == #[trigger] (esc(u) + seq![0x22u8] + rest) implies false by {
                            lemma_scan_step(s@, i as int, u, rest, decoded);
                            assert(s@.subrange(i + 6, s@.len() as int) == esc(u.drop_first())
                                + seq![0x22u8] + rest);
                        }
                    }
                    None
                },
            }
        } else {
            // not an escape the encoding produces
            proof {
                assert forall|u: Seq<u8>, rest: Seq<u8>|
                    whole == #[trigger] (esc(u) + seq![0x22u8] + rest) implies false by {
                    assert(esc_byte(u[0])[1] == e);
                }
            }
            None
        }
    } else if b < 0x20 {
        // a raw control byte never stands in a well-formed field
        proof {
            assert forall|u: Seq<u8>, rest: Seq<u8>|
                whole == #[trigger] (esc(u) + seq![0x22u8] + rest) implies false by {
                assert(u.len() > 0);
                assert(esc_byte(u[0]) == seq![u[0]]);
                assert(u[0] == b);
            }
        }
        None
    } else {
        // a plain byte stands for itself
        let decoded = b;
        proof {
            assert(esc_byte(decoded) =~= seq![decoded]);
            assert(s@.subrange(i as int, i + 1) =~= seq![decoded]);
            assert forall|u: Seq<u8>, rest: Seq<u8>|
                whole == #[trigger] (esc(u) + seq![0x22u8] + rest) implies u.len() > 0
                && esc_byte(u[0]) == seq![u[0]] by {
                if u.len() == 0 {
                    assert(whole[0] == (esc(u) + seq![0x22u8] + rest)[0]);
                    assert(whole[0] == 0x22);
                }
            }
        }
        match scan_content(s, i + 1) {
            Some((mut out, j)) => {
                proof {
                    assert(s@.subrange(i as int, j as int) =~= esc_byte(decoded) + s@.subrange(
                        i + 1,
                        j as int,
                    ));
                }
                let ghost out0 = out@;
                out.insert(0, decoded);
                proof {
                    assert(out@ =~= seq![decoded] + out0);
                    assert(out@[0] == decoded);
                    assert(out@.drop_first() =~= out0);
                    assert(esc(out@) == esc_byte(decoded) + esc(out0));
                    assert(s@.subrange(i as int, j as int) == esc(out@));
                    assert forall|u: Seq<u8>, rest: Seq<u8>|
                        whole == #[trigger] (esc(u) + seq![0x22u8] + rest) implies (out@ == u && j
                        == i + esc(u).len()) by {
                        lemma_scan_step(s@, i as int, u, rest, decoded);
                        assert(s@.subrange(i + 1, s@.len() as int) == esc(u.drop_first())
                            + seq![0x22u8] + rest);
                    }
                }
                Some((out, j))
            },
            None => {
                proof {
                    assert forall|u: Seq<u8>, rest: Seq<u8>|
                        whole == #[trigger] (esc(u) + seq![0x22u8] + rest) implies false by {
                        lemma_scan_step(s@, i as int, u, rest, decoded);
                        assert(s@.subrange(i + 1, s@.len() as int) == esc(u.drop_first())
                            + seq![0x22u8] + rest);
                    }
                }
                None
            },
        }
    }
}

/// One step of the scan: where the input from `i` on is an escaped field
/// `u` followed by a quote, and the byte at `i` opens the escape of
/// `decoded`, then `u` starts with `decoded` and the input past that escape
/// is the escaped remainder of `u` followed by the same quote.
proof fn lemma_scan_step(s: Seq<u8>, i: int, u: Seq<u8>, rest: Seq<u8>, decoded: u8)
    requires
        0 <= i <= s.len(),
        s.subrange(i, s.len() as int) == esc(u) + seq![0x22u8] + rest,
        u.len() > 0,
        i + esc_byte(decoded).len() <= s.len(),
        s.subrange(i, i + esc_byte(decoded).len()) == esc_byte(decoded),
        esc_byte(u[0]).len() == esc_byte(decoded).len(),
    ensures
        u[0] == decoded,
        s.subrange(i + esc_byte(decoded).len(), s.len() as int) == esc(u.drop_first())
            + seq![0x22u8] + rest,
{
    let whole = s.subrange(i, s.len() as int);
    let c = esc_byte(decoded).len() as int;
    assert(esc(u) == esc_byte(u[0]) + esc(u.drop_first()));
    assert forall|k: int| 0 <= k < c implies esc_byte(u[0])[k] == esc_byte(decoded)[k] by {
        assert(whole[k] == (esc(u) + seq![0x22u8] + rest)[k]);
        assert((esc(u) + seq![0x22u8] + rest)[k] == esc(u)[k]);
        assert(esc(u)[k] == esc_byte(u[0])[k]);
        assert(whole[k] == s[i + k]);
        assert(s.subrange(i, i + c)[k] == s[i + k]);
    }
    assert(esc_byte(u[0]) =~= esc_byte(decoded));
    lemma_esc_byte_injective(u[0], decoded);
    let tail = s.subrange(i + c, s.len() as int);
    let remainder = esc(u.drop_first()) + seq![0x22u8] + rest;
    assert(whole =~= esc_byte(decoded) + tail);
    assert(esc(u) + seq![0x22u8] + rest =~= esc_byte(u[0]) + remainder);
    assert(esc_byte(decoded) + tail == esc_byte(u[0]) + remainder);
    assert forall|k: int| 0 <= k < tail.len() implies tail[k] == remainder[k] by {
        assert((esc_byte(decoded) + tail)[c + k] == tail[k]);
        assert((esc_byte(u[0]) + remainder)[c + k] == remainder[k]);
    }
    assert(tail.len() == remainder.len());
    assert(tail =~= remainder);
}

/// The length of a serialized record: the three markers and the two escaped
/// fields.
pub proof fn lemma_enc_record_len(u: Seq<u8>, p: Seq<u8>)
    ensures
        enc_record(u, p).len() == 29 + esc(u).len() + esc(p).len(),
{
}

/// Parses a serialized record.
///
/// The two postconditions make the parse exact: it succeeds on exactly the
/// strings that `encode_record` produces, and then returns the unique fields
/// the string was built from.  Everything else — and in particular every
/// plaintext that did not come out of a correct decryption — is refused.
pub fn parse_record(s: &[u8]) -> (r: Option<AuthRecord>)
    ensures
        r matches Some(rec) ==> s@ == enc_record(rec.username@, rec.password@),
        forall|u: Seq<u8>, p: Seq<u8>|
            s@ == #[trigger] enc_record(u, p) ==> (r matches Some(rec) && rec.username@ == u
                && rec.password@ == p),
{
    let n = s.len();
    let pre = record_prefix_bytes();
    if !matches_at(s, 0, pre.as_slice()) {
        proof {
            assert forall|u: Seq<u8>, p: Seq<u8>| s@ == #[trigger] enc_record(u, p) implies false by {
                lemma_enc_record_len(u, p);
                assert(s@.subrange(0, 13) =~= record_prefix());
            }
        }
        return None;
    }
    let (uv, j) = match scan_content(s, 13) {
        Some(x) => x,
        None => {
            proof {
                assert forall|u: Seq<u8>, p: Seq<u8>|
                    s@ == #[trigger] enc_record(u, p) implies false by {
                    lemma_enc_record_len(u, p);
                    assert(s@.subrange(13, s@.len() as int) == esc(u) + seq![0x22u8] + (
                    record_infix().drop_first() + esc(p) + record_suffix()));
                }
            }
            return None;
        },
    };
    proof {
        assert forall|u: Seq<u8>, p: Seq<u8>|
            s@ == #[trigger] enc_record(u, p) implies uv@ == u && j == 13 + esc(u).len() by {
            lemma_enc_record_len(u, p);
            assert(s@.subrange(13, s@.len() as int) == esc(u) + seq![0x22u8] + (
            record_infix().drop_first() + esc(p) + record_suffix()));
        }
    }
    let infix = record_infix_bytes();
    if !matches_at(s, j, infix.as_slice()) {
        proof {
            assert forall|u: Seq<u8>, p: Seq<u8>| s@ == #[trigger] enc_record(u, p) implies false by {
                lemma_enc_record_len(u, p);
                assert(s@.subrange(j as int, j + 14) =~= record_infix());
            }
        }
        return None;
    }
    let (pv, k) = match scan_content(s, j + 14) {
        Some(x) => x,
        None => {
            proof {
                assert forall|u: Seq<u8>, p: Seq<u8>|
                    s@ == #[trigger] enc_record(u, p) implies false by {
                    lemma_enc_record_len(u, p);
                    assert(s@.subrange(j + 14, s@.len() as int) == esc(p) + seq![0x22u8]
                        + seq![0x7du8]);
                }
            }
            return None;
        },
    };
    proof {
        assert forall|u: Seq<u8>, p: Seq<u8>|
            s@ == #[trigger] enc_record(u, p) implies pv@ == p && k == j + 14 + esc(p).len() by {
            lemma_enc_record_len(u, p);
            assert(s@.subrange(j + 14, s@.len() as int) == esc(p) + seq![0x22u8] + seq![0x7du8]);
        }
    }
    if n - k != 2 {
        proof {
            assert forall|u: Seq<u8>, p: Seq<u8>| s@ == #[trigger] enc_record(u, p) implies false by {
                lemma_enc_record_len(u, p);
            }
        }
        return None;
    }
    if s[k + 1] != 0x7d {
        proof {
            assert forall|u: Seq<u8>, p: Seq<u8>| s@ == #[trigger] enc_record(u, p) implies false by {
                lemma_enc_record_len(u, p);
                assert(s@[k + 1] == enc_record(u, p)[k + 1]);
                assert(enc_record(u, p)[k + 1] == record_suffix()[1]);
            }
        }
        return None;
    }
    proof {
        assert(s@.subrange(k as int, s@.len() as int) =~= record_suffix());
        assert(s@ =~= s@.subrange(0, 13) + s@.subrange(13, j as int) + s@.subrange(j as int, j + 14)
            + s@.subrange(j + 14, k as int) + s@.subrange(k as int, s@.len() as int));
        assert(s@ == enc_record(uv@, pv@));
    }
    Some(AuthRecord { username: uv, password: pv })
}

/// Two bytes with the same escape are the same byte.
proof fn lemma_esc_byte_injective(a: u8, b: u8)
    requires
        esc_byte(a) == esc_byte(b),
    ensures
        a == b,
{
    assert(esc_byte(a).len() == esc_byte(b).len());
    assert(esc_byte(a)[0] == esc_byte(b)[0]);
    if a == 0x22 {
        assert(esc_byte(b)[1] == 0x22);
    } else if a == 0x5c {
        assert(esc_byte(b)[1] == 0x5c);
    } else if a < 0x20 {
        assert(esc_byte(b)[1] == 0x75);
        assert(b < 0x20);
        assert(esc_byte(b)[4] == hex_digit(a / 16));
        assert(esc_byte(b)[5] == hex_digit(a % 16));
        assert(hex_digit(a / 16) == hex_digit(b / 16));
        assert(hex_digit(a % 16) == hex_digit(b % 16));
        assert(a / 16 == b / 16);
        assert(a % 16 == b % 16);
        assert(a == b) by (bit_vector)
            requires
                a / 16 == b / 16 && a % 16 == b % 16,
        ;
    } else {
        assert(esc_byte(b)[0] == a);
    }
}

} // verus!
