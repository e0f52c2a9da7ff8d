//! The credential vault: the on-disk stored-credential format and the
//! verify-or-bootstrap decision.
//!
//! The vault file holds either nothing (possibly whitespace or null padding),
//! the canonical empty-sentinel record, or one stored credential of the form
//! `hex(iv):hex(ciphertext)` where the ciphertext is the AES-256-CBC
//! encryption of the serialized record under the master key and the IV.

use vstd::prelude::*;

use crate::cipher::{
    aes256_cbc_decrypt, aes256_cbc_encrypt, aes256_cbc_encrypt_spec, random_iv,
};
use crate::errors::VaultError;
use crate::hexcodec::{
    hex_bytes, hex_decode, hex_decode_spec, hex_encode, is_hex_digit_byte, is_hex_seq,
    lemma_hex_bytes_digits, lemma_hex_bytes_len, lemma_hex_round_trip,
};
use crate::keys::MasterKey;
use crate::record::{enc_record, encode_record, parse_record, push_all, record_prefix, AuthRecord};

verus! {

/// `c` with its leading null bytes removed.
pub open spec fn trim_nulls_front(c: Seq<u8>) -> Seq<u8>
    decreases c.len(),
{
    if c.len() > 0 && c[0] == 0 {
        trim_nulls_front(c.drop_first())
    } else {
        c
    }
}

/// `c` with its trailing null bytes removed.
pub open spec fn trim_nulls_back(c: Seq<u8>) -> Seq<u8>
    decreases c.len(),
{
    if c.len() > 0 && c[c.len() - 1] == 0 {
        trim_nulls_back(c.drop_last())
    } else {
        c
    }
}

/// The vault file's content with the null padding that truncating writes can
/// leave behind stripped from both ends.
pub open spec fn cleaned(c: Seq<u8>) -> Seq<u8> {
    trim_nulls_back(trim_nulls_front(c))
}

/// An ASCII whitespace byte.
pub open spec fn is_ws(b: u8) -> bool {
    b == 0x20 || b == 0x09 || b == 0x0a || b == 0x0b || b == 0x0c || b == 0x0d
}

/// Nothing but whitespace.
pub open spec fn is_blank(c: Seq<u8>) -> bool {
    forall|i: int| 0 <= i < c.len() ==> is_ws(#[trigger] c[i])
}

/// The canonical empty-sentinel record: the serialization of two empty
/// fields.
pub open spec fn sentinel() -> Seq<u8> {
    enc_record(Seq::empty(), Seq::empty())
}

/// A cleaned vault content that means "no credential set yet".
pub open spec fn is_uninitialized(c: Seq<u8>) -> bool {
    is_blank(c) || c == sentinel()
}

/// No colon anywhere in `c`.
pub open spec fn colon_free(c: Seq<u8>) -> bool {
    forall|i: int| 0 <= i < c.len() ==> (#[trigger] c[i]) != 0x3a
}

/// The one colon of `c` stands at `i`.
pub open spec fn splits_at(c: Seq<u8>, i: int) -> bool {
    &&& 0 <= i < c.len()
    &&& c[i] == 0x3a
    &&& colon_free(c.subrange(0, i))
    &&& colon_free(c.subrange(i + 1, c.len() as int))
}

/// The one colon of `c` stands at `i` between two non-empty hex tokens.
pub open spec fn stored_shape_at(c: Seq<u8>, i: int) -> bool {
    &&& splits_at(c, i)
    &&& 1 <= i
    &&& i + 1 < c.len()
    &&& is_hex_seq(c.subrange(0, i))
    &&& is_hex_seq(c.subrange(i + 1, c.len() as int))
}

/// A well-formed stored credential: exactly two non-empty hex tokens around
/// one colon.
pub open spec fn well_formed_stored(c: Seq<u8>) -> bool {
    exists|i: int| stored_shape_at(c, i)
}

/// The stored-credential content written at bootstrap: the hex of the IV, a
/// colon, and the hex of the AES-256-CBC ciphertext of the serialized
/// record.
pub open spec fn stored_credential(key: Seq<u8>, iv: Seq<u8>, u: Seq<u8>, p: Seq<u8>) -> Seq<u8> {
    hex_bytes(iv) + seq![0x3au8] + hex_bytes(aes256_cbc_encrypt_spec(key, iv, enc_record(u, p)))
}

/// Where an all-null prefix of `c` ends, the front trim keeps the rest.
proof fn lemma_trim_front(c: Seq<u8>, k: int)
    requires
        0 <= k <= c.len(),
        forall|i: int| 0 <= i < k ==> c[i] == 0,
        k == c.len() || c[k] != 0,
    ensures
        trim_nulls_front(c) == c.subrange(k, c.len() as int),
    decreases k,
{
    if k == 0 {
        assert(c.subrange(0, c.len() as int) =~= c);
    } else {
        assert(c[0] == 0);
        assert forall|i: int| 0 <= i < k - 1 implies c.drop_first()[i] == 0 by {
            assert(c.drop_first()[i] == c[i + 1]);
        }
        lemma_trim_front(c.drop_first(), k - 1);
        assert(c.drop_first().subrange(k - 1, c.drop_first().len() as int) =~= c.subrange(
            k,
            c.len() as int,
        ));
    }
}

/// Where an all-null suffix of `c` starts, the back trim keeps the rest.
proof fn lemma_trim_back(c: Seq<u8>, h: int)
    requires
        0 <= h <= c.len(),
        forall|i: int| h <= i < c.len() ==> c[i] == 0,
        h == 0 || c[h - 1] != 0,
    ensures
        trim_nulls_back(c) == c.subrange(0, h),
    decreases c.len(),
{
    if h == c.len() {
        assert(c.subrange(0, h) =~= c);
    } else {
        assert(c[c.len() - 1] == 0);
        assert forall|i: int| h <= i < c.drop_last().len() implies c.drop_last()[i] == 0 by {
            assert(c.drop_last()[i] == c[i]);
        }
        lemma_trim_back(c.drop_last(), h);
        assert(c.drop_last().subrange(0, h) =~= c.subrange(0, h));
    }
}

/// Two split positions are the same position.
pub proof fn lemma_splits_unique(c: Seq<u8>, i: int, j: int)
    requires
        splits_at(c, i),
        splits_at(c, j),
    ensures
        i == j,
{
    if i < j {
        assert(c.subrange(i + 1, c.len() as int)[j - i - 1] == c[j]);
    }
    if j < i {
        assert(c.subrange(j + 1, c.len() as int)[i - j - 1] == c[i]);
    }
}

/// One colon between two non-empty hex tokens is the stored-credential
/// shape, and each side of the colon reads back as its token.
proof fn lemma_two_token_shape(a: Seq<u8>, b: Seq<u8>)
    requires
        a.len() > 0,
        b.len() > 0,
        a.len() % 2 == 0,
        b.len() % 2 == 0,
        forall|i: int| 0 <= i < a.len() ==> is_hex_digit_byte(#[trigger] a[i]),
        forall|i: int| 0 <= i < b.len() ==> is_hex_digit_byte(#[trigger] b[i]),
    ensures
        (a + seq![0x3au8] + b).subrange(0, a.len() as int) == a,
        (a + seq![0x3au8] + b).subrange(a.len() as int + 1, (a + seq![0x3au8] + b).len() as int) == b,
        stored_shape_at(a + seq![0x3au8] + b, a.len() as int),
{
    let c = a + seq![0x3au8] + b;
    assert(c.len() == a.len() + 1 + b.len());
    assert(c.subrange(0, a.len() as int) =~= a);
    assert(c.subrange(a.len() as int + 1, c.len() as int) =~= b);
    assert(c[a.len() as int] == 0x3a);
    assert(colon_free(a));
    assert(colon_free(b));
    assert(is_hex_seq(a));
    assert(is_hex_seq(b));
}

/// Trimming nulls leaves a string whose ends are not null unchanged.
proof fn lemma_clean_of_nonnull_ends(c: Seq<u8>)
    requires
        c.len() > 0,
        c[0] != 0,
        c[c.len() - 1] != 0,
    ensures
        cleaned(c) == c,
{
    lemma_trim_front(c, 0);
    assert(c.subrange(0, c.len() as int) =~= c);
    lemma_trim_back(c, c.len() as int);
}

/// The sentinel starts with the record's opening brace.
proof fn lemma_sentinel_first()
    ensures
        sentinel().len() > 0,
        sentinel()[0] == 0x7b,
{
    assert(record_prefix().len() == 13);
    assert(sentinel().len() >= 13);
    assert(sentinel()[0] == record_prefix()[0]);
}

/// Law: a freshly written stored credential is usable on the next login:
/// cleaning leaves it unchanged, it does not mean "no credential set", and
/// it splits into exactly the two hex tokens it was built from.  The
/// hypothesis on the ciphertext's length carries what the cipher guarantees
/// of every encryption it produces: PKCS7 padding never yields an empty
/// ciphertext.
pub proof fn lemma_stored_credential_shape(key: Seq<u8>, iv: Seq<u8>, u: Seq<u8>, p: Seq<u8>)
    requires
        iv.len() == 16,
        aes256_cbc_encrypt_spec(key, iv, enc_record(u, p)).len() > 0,
    ensures
        cleaned(stored_credential(key, iv, u, p)) == stored_credential(key, iv, u, p),
        !is_uninitialized(stored_credential(key, iv, u, p)),
        stored_shape_at(stored_credential(key, iv, u, p), 32),
        well_formed_stored(stored_credential(key, iv, u, p)),
        stored_credential(key, iv, u, p).subrange(0, 32) == hex_bytes(iv),
        stored_credential(key, iv, u, p).subrange(
            33,
            stored_credential(key, iv, u, p).len() as int,
        ) == hex_bytes(aes256_cbc_encrypt_spec(key, iv, enc_record(u, p))),
{
    let ct = aes256_cbc_encrypt_spec(key, iv, enc_record(u, p));
    let a = hex_bytes(iv);
    let b = hex_bytes(ct);
    let sc = stored_credential(key, iv, u, p);
    lemma_hex_bytes_len(iv);
    lemma_hex_bytes_digits(iv);
    lemma_hex_round_trip(iv);
    lemma_hex_bytes_len(ct);
    lemma_hex_bytes_digits(ct);
    lemma_hex_round_trip(ct);
    lemma_two_token_shape(a, b);
    assert(a.len() == 32);
    assert(stored_shape_at(sc, 32));
    assert(sc.subrange(0, 32) == a);
    assert(sc.subrange(33, sc.len() as int) == b);
    // cleaning leaves it unchanged: hex digits are never null
    assert(sc[0] == a[0] && is_hex_digit_byte(a[0])) by {
        assert(sc.subrange(0, 32)[0] == sc[0]);
    }
    assert(sc[sc.len() - 1] == b[b.len() - 1] && is_hex_digit_byte(b[b.len() - 1])) by {
        assert(sc.subrange(33, sc.len() as int)[b.len() - 1] == sc[sc.len() - 1]);
    }
    lemma_clean_of_nonnull_ends(sc);
    // it is not uninitialized: the first byte is a hex digit, which is
    // neither whitespace nor the sentinel's opening brace
    assert(!is_blank(sc)) by {
        if is_blank(sc) {
            assert(is_ws(sc[0]));
        }
    }
    assert(sc != sentinel()) by {
        lemma_sentinel_first();
        if sc == sentinel() {
            assert(sc[0] == sentinel()[0]);
        }
    }
}

/// Where a cleaned content is a stored credential, its split stands at 32
/// and its tokens decode back to the IV and the ciphertext it was built
/// from.
proof fn lemma_identify_tokens(c: Seq<u8>, key: Seq<u8>, iv: Seq<u8>, u2: Seq<u8>, p2: Seq<u8>, ci: int)
    requires
        iv.len() == 16,
        aes256_cbc_encrypt_spec(key, iv, enc_record(u2, p2)).len() > 0,
        c == stored_credential(key, iv, u2, p2),
        splits_at(c, ci),
    ensures
        ci == 32,
        33 < c.len(),
        is_hex_seq(c.subrange(0, 32)),
        is_hex_seq(c.subrange(33, c.len() as int)),
        hex_decode_spec(c.subrange(0, 32)) == iv,
        hex_decode_spec(c.subrange(33, c.len() as int)) == aes256_cbc_encrypt_spec(
            key,
            iv,
            enc_record(u2, p2),
        ),
{
    let ct = aes256_cbc_encrypt_spec(key, iv, enc_record(u2, p2));
    lemma_stored_credential_shape(key, iv, u2, p2);
    lemma_splits_unique(c, ci, 32);
    lemma_hex_round_trip(iv);
    lemma_hex_round_trip(ct);
    lemma_hex_bytes_len(ct);
}

/// Copies `c[a..b]` into a fresh vector.
fn copy_range(c: &[u8], a: usize, b: usize) -> (r: Vec<u8>)
    requires
        a <= b <= c@.len(),
    ensures
        r@ == c@.subrange(a as int, b as int),
{
    let mut out: Vec<u8> = Vec::new();
    let mut i: usize = a;
    while i < b
        invariant
            a <= i <= b <= c@.len(),
            out@ == c@.subrange(a as int, i as int),
        decreases b - i,
    {
        out.push(c[i]);
        proof {
            assert(out@ =~= c@.subrange(a as int, i + 1 as int));
        }
        i = i + 1;
    }
    out
}

/// Compares two byte strings.
fn bytes_eq(a: &[u8], b: &[u8]) -> (r: bool)
    ensures
        r <==> a@ == b@,
{
    if a.len() != b.len() {
        return false;
    }
    let mut i: usize = 0;
    while i < a.len()
        invariant
            a@.len() == b@.len(),
            i <= a@.len(),
            forall|t: int| 0 <= t < i ==> a@[t] == b@[t],
        decreases a@.len() - i,
    {
        if a[i] != b[i] {
            return false;
        }
        i = i + 1;
    }
    proof {
        assert(a@ =~= b@);
    }
    true
}

/// Strips null padding from both ends of the vault file's content.
fn clean_content(c: &[u8]) -> (r: Vec<u8>)
    ensures
        r@ == cleaned(c@),
{
    let n = c.len();
    let mut lo: usize = 0;
    while lo < n && c[lo] == 0
        invariant
            n == c@.len(),
            lo <= n,
            forall|i: int| 0 <= i < lo ==> c@[i] == 0,
        decreases n - lo,
    {
        lo = lo + 1;
    }
    let mut hi: usize = n;
    while hi > lo && c[hi - 1] == 0
        invariant
            n == c@.len(),
            lo <= hi <= n,
            forall|i: int| hi <= i < n ==> c@[i] == 0,
        decreases hi,
    {
        hi = hi - 1;
    }
    let out = copy_range(c, lo, hi);
    proof {
        lemma_trim_front(c@, lo as int);
        let m = c@.subrange(lo as int, c@.len() as int);
        assert forall|i: int| (hi - lo) <= i < m.len() implies m[i] == 0 by {
            assert(m[i] == c@[lo + i]);
        }
        if hi > lo {
            assert(m[hi - lo - 1] == c@[hi - 1]);
        }
        lemma_trim_back(m, hi - lo);
        assert(m.subrange(0, hi - lo) =~= c@.subrange(lo as int, hi as int));
    }
    out
}

/// True exactly when the content is nothing but whitespace.
fn content_is_blank(c: &[u8]) -> (r: bool)
    ensures
        r <==> is_blank(c@),
{
    let mut i: usize = 0;
    while i < c.len()
        invariant
            i <= c@.len(),
            forall|t: int| 0 <= t < i ==> is_ws(#[trigger] c@[t]),
        decreases c@.len() - i,
    {
        let b = c[i];
        if !(b == 0x20 || b == 0x09 || b == 0x0a || b == 0x0b || b == 0x0c || b == 0x0d) {
            return false;
        }
        i = i + 1;
    }
    true
}

/// Finds the position of the content's one colon, or reports that no
/// position splits the content.
fn find_split(c: &[u8]) -> (r: Option<usize>)
    ensures
        r matches Some(i) ==> splits_at(c@, i as int),
        r is None ==> forall|i: int| !splits_at(c@, i),
{
    let n = c.len();
    let mut i: usize = 0;
    while i < n && c[i] != 0x3a
        invariant
            n == c@.len(),
            i <= n,
            forall|t: int| 0 <= t < i ==> (#[trigger] c@[t]) != 0x3a,
        decreases n - i,
    {
        i = i + 1;
    }
    if i == n {
        // no colon at all
        proof {
            assert forall|x: int| !splits_at(c@, x) by {
                if splits_at(c@, x) {
                    assert(c@[x] != 0x3a);
                }
            }
        }
        return None;
    }
    let mut k: usize = i + 1;
    while k < n && c[k] != 0x3a
        invariant
            n == c@.len(),
            i < k <= n,
            forall|t: int| i < t < k ==> (#[trigger] c@[t]) != 0x3a,
        decreases n - k,
    {
        k = k + 1;
    }
    if k < n {
        // a second colon: no position splits
        proof {
            assert forall|x: int| !splits_at(c@, x) by {
                if splits_at(c@, x) {
                    if x < i {
                        assert(c@[x] != 0x3a);
                    } else if x == i {
                        assert(c@.subrange(x + 1, c@.len() as int)[k - x - 1] == c@[k as int]);
                    } else {
                        assert(c@.subrange(0, x)[i as int] == c@[i as int]);
                    }
                }
            }
        }
        return None;
    }
    proof {
        assert forall|t: int| 0 <= t < i implies (#[trigger] c@.subrange(0, i as int)[t]) != 0x3a by {
            assert(c@.subrange(0, i as int)[t] == c@[t]);
        }
        assert forall|t: int|
            0 <= t < c@.len() - i - 1 implies (#[trigger] c@.subrange(
            i + 1,
            c@.len() as int,
        )[t]) != 0x3a by {
            assert(c@.subrange(i + 1, c@.len() as int)[t] == c@[i + 1 + t]);
        }
        assert(splits_at(c@, i as int));
    }
    Some(i)
}

/// Builds the stored-credential content for a pair under a key and an IV.
pub fn seal_record(key: &MasterKey, iv: &[u8], username: &[u8], password: &[u8]) -> (r: Vec<u8>)
    requires
        key.wf(),
        iv@.len() == 16,
    ensures
        r@ == stored_credential(key@, iv@, username@, password@),
        aes256_cbc_encrypt_spec(key@, iv@, enc_record(username@, password@)).len() > 0,
{
    let plain = encode_record(username, password);
    let ct = aes256_cbc_encrypt(key.bytes(), iv, plain.as_slice());
    let mut out = hex_encode(iv);
    out.push(0x3a);
    let cthex = hex_encode(ct.as_slice());
    push_all(&mut out, cthex.as_slice());
    proof {
        assert(out@ =~= stored_credential(key@, iv@, username@, password@));
    }
    out
}

/// Decrypts a stored ciphertext and parses the record inside.
///
/// Law: decryption inverts encryption.  Whenever the ciphertext is the
/// encryption of a serialized pair under this key and IV — in particular
/// whenever `seal_record` built it — exactly that pair comes back, for every
/// pair and every 16-byte IV.
pub fn open_record(key: &MasterKey, iv: &[u8], ciphertext: &[u8]) -> (r: Option<AuthRecord>)
    requires
        key.wf(),
        iv@.len() == 16,
    ensures
        forall|u: Seq<u8>, p: Seq<u8>|
            ciphertext@ == aes256_cbc_encrypt_spec(key@, iv@, #[trigger] enc_record(u, p)) ==> (
            r matches Some(rec) && rec.username@ == u && rec.password@ == p),
{
    match aes256_cbc_decrypt(key.bytes(), iv, ciphertext) {
        None => None,
        Some(plain) => parse_record(plain.as_slice()),
    }
}

/// What a verify-or-bootstrap call decides.
pub enum VaultOutcome {
    /// The vault held no credential yet: the pair was sealed, and the new
    /// content must be written back to the vault file.
    Bootstrapped { new_content: Vec<u8> },
    /// The stored record matches the supplied pair.
    Authenticated,
    /// The stored record is well-formed but does not match the pair.
    Rejected,
    /// The stored record is unusable.
    Failed { error: VaultError },
}

/// Checks a non-empty pair against the vault file's content, or stores the
/// pair where no credential is set yet.
///
/// Over the cleaned content: an uninitialized vault is bootstrapped under a
/// fresh random IV; a content that is not two non-empty hex tokens around
/// one colon is refused as malformed, exactly then; a well-formed content
/// either authenticates, rejects, or fails in the cipher.  The last
/// postcondition pins the decision on every content this library writes: a
/// stored credential authenticates exactly the pair it was built from and
/// rejects every other.
pub fn verify_or_bootstrap(
    key: &MasterKey,
    username: &[u8],
    password: &[u8],
    content: &[u8],
) -> (r: VaultOutcome)
    requires
        key.wf(),
        username@.len() > 0,
        password@.len() > 0,
    ensures
        is_uninitialized(cleaned(content@)) <==> r is Bootstrapped,
        !is_uninitialized(cleaned(content@)) && !well_formed_stored(cleaned(content@)) <==> r == (
        VaultOutcome::Failed { error: VaultError::MalformedRecord }),
        !is_uninitialized(cleaned(content@)) && well_formed_stored(cleaned(content@)) ==> (r
            is Authenticated || r is Rejected || r == (VaultOutcome::Failed {
            error: VaultError::CipherFailure,
        })),
        r matches VaultOutcome::Bootstrapped { new_content } ==> exists|iv: Seq<u8>|
            {
                &&& iv.len() == 16
                &&& new_content@ == #[trigger] stored_credential(key@, iv, username@, password@)
                &&& aes256_cbc_encrypt_spec(key@, iv, enc_record(username@, password@)).len() > 0
            },
        forall|iv: Seq<u8>, u2: Seq<u8>, p2: Seq<u8>|
            {
                &&& iv.len() == 16
                &&& aes256_cbc_encrypt_spec(key@, iv, enc_record(u2, p2)).len() > 0
                &&& cleaned(content@) == #[trigger] stored_credential(key@, iv, u2, p2)
            } ==> {
                &&& (r is Authenticated <==> u2 == username@ && p2 == password@)
                &&& (r is Rejected <==> !(u2 == username@ && p2 == password@))
            },
{
    let cl = clean_content(content);
    let blank = content_is_blank(cl.as_slice());
    let empty_field: Vec<u8> = Vec::new();
    let sent = encode_record(empty_field.as_slice(), empty_field.as_slice());
    let at_sentinel = bytes_eq(cl.as_slice(), sent.as_slice());
    proof {
        assert(sent@ == sentinel());
    }
    if blank || at_sentinel {
        let iv = random_iv();
        let nc = seal_record(key, iv.as_slice(), username, password);
        proof {
            assert(iv@.len() == 16 && nc@ == stored_credential(key@, iv@, username@, password@)
                && aes256_cbc_encrypt_spec(key@, iv@, enc_record(username@, password@)).len() > 0);
            assert forall|ivq: Seq<u8>, u2: Seq<u8>, p2: Seq<u8>|
                {
                    &&& ivq.len() == 16
                    &&& aes256_cbc_encrypt_spec(key@, ivq, enc_record(u2, p2)).len() > 0
                    &&& cleaned(content@) == #[trigger] stored_credential(key@, ivq, u2, p2)
                } implies false by {
                lemma_stored_credential_shape(key@, ivq, u2, p2);
            }
        }
        return VaultOutcome::Bootstrapped { new_content: nc };
    }
    let ci = match find_split(cl.as_slice()) {
        Some(x) => x,
        None => {
            proof {
                assert(!well_formed_stored(cl@)) by {
                    if well_formed_stored(cl@) {
                        let x = choose|x: int| stored_shape_at(cl@, x);
                        assert(splits_at(cl@, x));
                    }
                }
                assert forall|ivq: Seq<u8>, u2: Seq<u8>, p2: Seq<u8>|
                    {
                        &&& ivq.len() == 16
                        &&& aes256_cbc_encrypt_spec(key@, ivq, enc_record(u2, p2)).len() > 0
                        &&& cleaned(content@) == #[trigger] stored_credential(key@, ivq, u2, p2)
                    } implies false by {
                    lemma_stored_credential_shape(key@, ivq, u2, p2);
                    assert(splits_at(cl@, 32));
                }
            }
            return VaultOutcome::Failed { error: VaultError::MalformedRecord };
        },
    };
    let n = cl.len();
    if ci < 1 || n - ci < 2 {
        proof {
            assert(!well_formed_stored(cl@)) by {
                if well_formed_stored(cl@) {
                    let x = choose|x: int| stored_shape_at(cl@, x);
                    lemma_splits_unique(cl@, x, ci as int);
                }
            }
            assert forall|ivq: Seq<u8>, u2: Seq<u8>, p2: Seq<u8>|
                {
                    &&& ivq.len() == 16
                    &&& aes256_cbc_encrypt_spec(key@, ivq, enc_record(u2, p2)).len() > 0
                    &&& cleaned(content@) == #[trigger] stored_credential(key@, ivq, u2, p2)
                } implies false by {
                lemma_identify_tokens(cl@, key@, ivq, u2, p2, ci as int);
            }
        }
        return VaultOutcome::Failed { error: VaultError::MalformedRecord };
    }
    let t1 = copy_range(cl.as_slice(), 0, ci);
    let t2 = copy_range(cl.as_slice(), ci + 1, n);
    let ivb = match hex_decode(t1.as_slice()) {
        Some(v) => v,
        None => {
            proof {
                assert(!well_formed_stored(cl@)) by {
                    if well_formed_stored(cl@) {
                        let x = choose|x: int| stored_shape_at(cl@, x);
                        lemma_splits_unique(cl@, x, ci as int);
                    }
                }
                assert forall|ivq: Seq<u8>, u2: Seq<u8>, p2: Seq<u8>|
                    {
                        &&& ivq.len() == 16
                        &&& aes256_cbc_encrypt_spec(key@, ivq, enc_record(u2, p2)).len() > 0
                        &&& cleaned(content@) == #[trigger] stored_credential(key@, ivq, u2, p2)
                    } implies false by {
                    lemma_identify_tokens(cl@, key@, ivq, u2, p2, ci as int);
                }
            }
            return VaultOutcome::Failed { error: VaultError::MalformedRecord };
        },
    };
    let ctb = match hex_decode(t2.as_slice()) {
        Some(v) => v,
        None => {
            proof {
                assert(!well_formed_stored(cl@)) by {
                    if well_formed_stored(cl@) {
                        let x = choose|x: int| stored_shape_at(cl@, x);
                        lemma_splits_unique(cl@, x, ci as int);
                    }
                }
                assert forall|ivq: Seq<u8>, u2: Seq<u8>, p2: Seq<u8>|
                    {
                        &&& ivq.len() == 16
                        &&& aes256_cbc_encrypt_spec(key@, ivq, enc_record(u2, p2)).len() > 0
                        &&& cleaned(content@) == #[trigger] stored_credential(key@, ivq, u2, p2)
                    } implies false by {
                    lemma_identify_tokens(cl@, key@, ivq, u2, p2, ci as int);
                }
            }
            return VaultOutcome::Failed { error: VaultError::MalformedRecord };
        },
    };
    proof {
        assert(stored_shape_at(cl@, ci as int));
        assert(well_formed_stored(cl@));
    }
    if ivb.len() != 16 {
        proof {
            assert forall|ivq: Seq<u8>, u2: Seq<u8>, p2: Seq<u8>|
                {
                    &&& ivq.len() == 16
                    &&& aes256_cbc_encrypt_spec(key@, ivq, enc_record(u2, p2)).len() > 0
                    &&& cleaned(content@) == #[trigger] stored_credential(key@, ivq, u2, p2)
                } implies false by {
                lemma_identify_tokens(cl@, key@, ivq, u2, p2, ci as int);
            }
        }
        return VaultOutcome::Failed { error: VaultError::CipherFailure };
    }
    match open_record(key, ivb.as_slice(), ctb.as_slice()) {
        None => {
            proof {
                assert forall|ivq: Seq<u8>, u2: Seq<u8>, p2: Seq<u8>|
                    {
                        &&& ivq.len() == 16
                        &&& aes256_cbc_encrypt_spec(key@, ivq, enc_record(u2, p2)).len() > 0
                        &&& cleaned(content@) == #[trigger] stored_credential(key@, ivq, u2, p2)
                    } implies false by {
                    lemma_identify_tokens(cl@, key@, ivq, u2, p2, ci as int);
                    assert(ctb@ == aes256_cbc_encrypt_spec(key@, ivb@, enc_record(u2, p2)));
                }
            }
            VaultOutcome::Failed { error: VaultError::CipherFailure }
        },
        Some(rec) => {
            let user_match = bytes_eq(rec.username.as_slice(), username);
            let pass_match = bytes_eq(rec.password.as_slice(), password);
            proof {
                assert forall|ivq: Seq<u8>, u2: Seq<u8>, p2: Seq<u8>|
                    {
                        &&& ivq.len() == 16
                        &&& aes256_cbc_encrypt_spec(key@, ivq, enc_record(u2, p2)).len() > 0
                        &&& cleaned(content@) == #[trigger] stored_credential(key@, ivq, u2, p2)
                    } implies rec.username@ == u2 && rec.password@ == p2 by {
                    lemma_identify_tokens(cl@, key@, ivq, u2, p2, ci as int);
                    assert(ctb@ == aes256_cbc_encrypt_spec(key@, ivb@, enc_record(u2, p2)));
                }
            }
            if user_match && pass_match {
                VaultOutcome::Authenticated
            } else {
                VaultOutcome::Rejected
            }
        },
    }
}

} // verus!


