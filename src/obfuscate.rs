//! The build-time obfuscation transform: every double-quoted literal of a
//! source text is replaced, wherever its text occurs, by a quoted base64
//! encoding of its zero-padded content encrypted block by block (AES-256,
//! raw ECB) under a fresh random key. The keys are not kept: the rewrite is
//! one-way.
use crate::monitor::{chars_of, occurs_at};
use aes::cipher::{BlockEncrypt, KeyInit};
use base64::Engine;
use rand::RngCore;
use vstd::prelude::*;
use vstd::utf8::encode_utf8;

verus! {

/// Block size of the cipher in bytes.
pub const BLOCK_LEN: usize = 16;

/// Key size of the cipher in bytes.
pub const KEY_LEN: usize = 32;

/// Where the literal whose body starts at `j` ends (one past its closing
/// quote), scanning past backslash escapes; `None` when the text ends first
/// or a backslash is followed by a line break or by nothing.
pub open spec fn literal_end(s: Seq<char>, j: int) -> Option<int>
    decreases s.len() - j,
{
    if j < 0 || j >= s.len() {
        None
    } else if s[j] == '"' {
        Some(j + 1)
    } else if s[j] == '\\' {
        if j + 1 < s.len() && s[j + 1] != '\n' {
            literal_end(s, j + 2)
        } else {
            None
        }
    } else {
        literal_end(s, j + 1)
    }
}

/// Where a literal starting at `i` ends, if one starts there.
pub open spec fn literal_at(s: Seq<char>, i: int) -> Option<int> {
    if 0 <= i < s.len() && s[i] == '"' {
        literal_end(s, i + 1)
    } else {
        None
    }
}

/// The literals of `s` from position `p` on, leftmost first and without
/// overlap, as (start, end) pairs.
pub open spec fn spans_from(s: Seq<char>, p: int) -> Seq<(int, int)>
    decreases s.len() - p,
{
    if p < 0 || p >= s.len() {
        seq![]
    } else {
        match literal_at(s, p) {
            Some(e) => if p < e <= s.len() {
                seq![(p, e)] + spans_from(s, e)
            } else {
                seq![]
            },
            None => spans_from(s, p + 1),
        }
    }
}

/// The literals of `s`, leftmost first and without overlap.
pub open spec fn literal_spans_spec(s: Seq<char>) -> Seq<(int, int)> {
    spans_from(s, 0)
}

/// A literal's end lies past the position where its body starts and within
/// the text.
pub proof fn lemma_literal_end_bounds(s: Seq<char>, j: int)
    ensures
        literal_end(s, j) is Some ==> j < literal_end(s, j)->0 <= s.len(),
    decreases s.len() - j,
{
    if 0 <= j < s.len() && s[j] != '"' {
        if s[j] == '\\' {
            if j + 1 < s.len() && s[j + 1] != '\n' {
                lemma_literal_end_bounds(s, j + 2);
            }
        } else {
            lemma_literal_end_bounds(s, j + 1);
        }
    }
}

/// Finds where the literal whose body starts at `j` ends.
fn find_literal_end(s: &Vec<char>, j: usize) -> (r: Option<usize>)
    ensures
        match r {
            Some(e) => literal_end(s@, j as int) == Some(e as int),
            None => literal_end(s@, j as int) is None,
        },
{
    let n = s.len();
    let mut k: usize = j;
    while k < n
        invariant
            n == s@.len(),
            j <= k,
            literal_end(s@, k as int) == literal_end(s@, j as int),
        decreases n - k,
    {
        if s[k] == '"' {
            return Some(k + 1);
        } else if s[k] == '\\' {
            if k + 1 < n && s[k + 1] != '\n' {
                k = k + 2;
            } else {
                return None;
            }
        } else {
            k = k + 1;
        }
    }
    None
}

/// The literals of `text` as (start, end) character positions, leftmost
/// first and without overlap.
pub fn literal_spans(text: &Vec<char>) -> (r: Vec<(usize, usize)>)
    ensures
        r@.len() == literal_spans_spec(text@).len(),
        forall|i: int|
            0 <= i < r@.len() ==> r@[i].0 as int == literal_spans_spec(text@)[i].0 && r@[i].1 as int
                == literal_spans_spec(text@)[i].1,
        forall|i: int| 0 <= i < r@.len() ==> (#[trigger] r@[i]).0 < r@[i].1 <= text@.len(),
{
    let n = text.len();
    let mut out: Vec<(usize, usize)> = Vec::new();
    let ghost done: Seq<(int, int)> = seq![];
    let mut p: usize = 0;
    while p < n
        invariant
            n == text@.len(),
            p <= n,
            done + spans_from(text@, p as int) == literal_spans_spec(text@),
            out@.len() == done.len(),
            forall|i: int| 0 <= i < out@.len() ==> out@[i].0 as int == done[i].0 && out@[i].1 as int == done[i].1,
            forall|i: int| 0 <= i < out@.len() ==> (#[trigger] out@[i]).0 < out@[i].1 <= n,
        decreases n - p,
    {
        let found = if text[p] == '"' {
            find_literal_end(text, p + 1)
        } else {
            None
        };
        match found {
            Some(e) => {
                proof {
                    lemma_literal_end_bounds(text@, p + 1);
                    assert(done + spans_from(text@, p as int) =~= (done + seq![(p as int, e as int)])
                        + spans_from(text@, e as int));
                    done = done + seq![(p as int, e as int)];
                }
                out.push((p, e));
                p = e;
            },
            None => {
                p = p + 1;
            },
        }
    }
    assert(done =~= literal_spans_spec(text@));
    out
}

/// `t` with every occurrence of `pat`, taken left to right without overlap,
/// replaced by `rep`.
pub open spec fn replace_all(t: Seq<char>, pat: Seq<char>, rep: Seq<char>) -> Seq<char>
    decreases t.len(),
{
    if pat.len() == 0 || t.len() < pat.len() {
        t
    } else if t.take(pat.len() as int) == pat {
        rep + replace_all(t.skip(pat.len() as int), pat, rep)
    } else {
        seq![t[0]] + replace_all(t.skip(1), pat, rep)
    }
}

/// Replaces every occurrence of `pat` in `t`, left to right without overlap,
/// by `rep`.
pub fn replace_all_chars(t: &Vec<char>, pat: &Vec<char>, rep: &Vec<char>) -> (r: Vec<char>)
    requires
        pat@.len() > 0,
    ensures
        r@ == replace_all(t@, pat@, rep@),
{
    let n = t.len();
    let m = pat.len();
    let mut out: Vec<char> = Vec::new();
    let mut i: usize = 0;
    assert(t@.skip(0) =~= t@);
    assert(out@ + replace_all(t@, pat@, rep@) =~= replace_all(t@, pat@, rep@));
    while i < n
        invariant
            n == t@.len(),
            m == pat@.len(),
            m > 0,
            i <= n,
            out@ + replace_all(t@.skip(i as int), pat@, rep@) == replace_all(t@, pat@, rep@),
        decreases n - i,
    {
        let rest = Ghost(t@.skip(i as int));
        if m <= n - i && occurs_at(pat, t, i) {
            assert(rest@.take(m as int) =~= t@.subrange(i as int, i + m));
            assert(rest@.skip(m as int) =~= t@.skip(i + m));
            let mut k: usize = 0;
            let ghost before = out@;
            while k < rep.len()
                invariant
                    k <= rep@.len(),
                    out@ == before + rep@.take(k as int),
                decreases rep@.len() - k,
            {
                out.push(rep[k]);
                k = k + 1;
                assert(out@ =~= before + rep@.take(k as int));
            }
            assert(rep@.take(rep@.len() as int) =~= rep@);
            assert(out@ + replace_all(t@.skip(i + m), pat@, rep@) =~= before + replace_all(rest@, pat@, rep@));
            i = i + m;
        } else {
            if m <= n - i {
                assert(rest@.take(m as int) =~= t@.subrange(i as int, i + m));
            } else {
                assert(replace_all(t@.skip(i + 1), pat@, rep@) == t@.skip(i + 1));
            }
            assert(rest@.skip(1) =~= t@.skip(i + 1));
            assert(rest@ =~= seq![t@[i as int]] + t@.skip(i + 1));
            let ghost before = out@;
            out.push(t[i]);
            assert(out@ + replace_all(t@.skip(i + 1), pat@, rep@) =~= before + replace_all(rest@, pat@, rep@));
            i = i + 1;
        }
    }
    assert(t@.skip(n as int) =~= Seq::<char>::empty());
    assert(out@ + Seq::<char>::empty() =~= out@);
    out
}

/// `x` without its leading double quotes.
pub open spec fn trim_start_quotes(x: Seq<char>) -> Seq<char>
    decreases x.len(),
{
    if x.len() > 0 && x[0] == '"' {
        trim_start_quotes(x.skip(1))
    } else {
        x
    }
}

/// `x` without its trailing double quotes.
pub open spec fn trim_end_quotes(x: Seq<char>) -> Seq<char>
    decreases x.len(),
{
    if x.len() > 0 && x.last() == '"' {
        trim_end_quotes(x.drop_last())
    } else {
        x
    }
}

/// The content of a matched literal: its text with the double quotes at
/// either end removed.
pub open spec fn literal_content(lit: Seq<char>) -> Seq<char> {
    trim_end_quotes(trim_start_quotes(lit))
}

/// Strips the double quotes at both ends of `lit`.
pub fn trim_quotes(lit: &Vec<char>) -> (r: Vec<char>)
    ensures
        r@ == literal_content(lit@),
{
    let n = lit.len();
    let mut a: usize = 0;
    assert(lit@.skip(0) =~= lit@);
    while a < n && lit[a] == '"'
        invariant
            a <= n,
            n == lit@.len(),
            trim_start_quotes(lit@.skip(a as int)) == trim_start_quotes(lit@),
        decreases n - a,
    {
        assert(lit@.skip(a as int).skip(1) =~= lit@.skip(a + 1));
        a = a + 1;
    }
    let ghost front = lit@.skip(a as int);
    assert(trim_start_quotes(front) == front);
    let mut b: usize = n;
    while b > a && lit[b - 1] == '"'
        invariant
            a <= b <= n,
            n == lit@.len(),
            front == lit@.skip(a as int),
            trim_end_quotes(lit@.subrange(a as int, b as int)) == trim_end_quotes(front),
        decreases b,
    {
        assert(lit@.subrange(a as int, b as int).drop_last() =~= lit@.subrange(a as int, b - 1));
        b = b - 1;
    }
    assert(front =~= lit@.subrange(a as int, n as int));
    let mut out: Vec<char> = Vec::new();
    let mut i: usize = a;
    while i < b
        invariant
            a <= i <= b,
            b <= n,
            n == lit@.len(),
            out@ == lit@.subrange(a as int, i as int),
        decreases b - i,
    {
        out.push(lit[i]);
        i = i + 1;
        assert(out@ =~= lit@.subrange(a as int, i as int));
    }
    out
}

/// Number of zero bytes that bring `n` bytes up to a multiple of the block size.
pub open spec fn pad_len(n: nat) -> nat {
    ((16 - n % 16) % 16) as nat
}

/// `b` followed by zero bytes up to the next multiple of the block size.
pub open spec fn zero_pad(b: Seq<u8>) -> Seq<u8> {
    b + Seq::new(pad_len(b.len()), |i: int| 0u8)
}

/// Pads `b` with zero bytes to a multiple of the block size.
pub fn zero_pad_bytes(b: &Vec<u8>) -> (r: Vec<u8>)
    ensures
        r@ == zero_pad(b@),
        r@.len() % 16 == 0,
{
    let mut out: Vec<u8> = Vec::new();
    let mut i: usize = 0;
    while i < b.len()
        invariant
            i <= b@.len(),
            out@ == b@.take(i as int),
        decreases b@.len() - i,
    {
        out.push(b[i]);
        i = i + 1;
        assert(out@ =~= b@.take(i as int));
    }
    assert(b@.take(b@.len() as int) =~= b@);
    let pad: usize = (BLOCK_LEN - b.len() % BLOCK_LEN) % BLOCK_LEN;
    let mut k: usize = 0;
    while k < pad
        invariant
            k <= pad,
            pad == pad_len(b@.len()),
            out@ == b@ + Seq::new(k as nat, |i: int| 0u8),
        decreases pad - k,
    {
        out.push(0u8);
        k = k + 1;
        assert(out@ =~= b@ + Seq::new(k as nat, |i: int| 0u8));
    }
    assert((b@.len() + pad_len(b@.len())) % 16 == 0);
    out
}

/// The cipher applied to one block under a key. Named because its definition
/// is the AES-256 standard; it depends on key and block alone.
pub uninterp spec fn aes256_block(key: Seq<u8>, block: Seq<u8>) -> Seq<u8>;

/// Relies on the `aes` crate's `Aes256` (`KeyInit::new`, then
/// `BlockEncrypt::encrypt_block`): one 16-byte block encrypted under a
/// 32-byte key, giving 16 bytes.
#[verifier::external_body]
fn aes256_encrypt_block(key: &[u8], block: &[u8]) -> (r: Vec<u8>)
    requires
        key@.len() == 32,
        block@.len() == 16,
    ensures
        r@ == aes256_block(key@, block@),
        r@.len() == 16,
{
    let cipher = aes::Aes256::new(aes::cipher::generic_array::GenericArray::from_slice(key));
    let mut b = aes::cipher::generic_array::GenericArray::clone_from_slice(block);
    cipher.encrypt_block(&mut b);
    b.to_vec()
}

/// Raw ECB: each 16-byte block of `data` encrypted independently under `key`,
/// in order. Meant for data whose length is a multiple of the block size.
pub open spec fn ecb_encrypt(key: Seq<u8>, data: Seq<u8>) -> Seq<u8>
    decreases data.len(),
{
    if data.len() < 16 {
        seq![]
    } else {
        ecb_encrypt(key, data.take(data.len() - 16)) + aes256_block(key, data.skip(data.len() - 16))
    }
}

/// Encrypts `data`, whose length is a multiple of the block size, block by
/// block under `key` with no chaining.
pub fn ecb_encrypt_blocks(key: &[u8], data: &Vec<u8>) -> (r: Vec<u8>)
    requires
        key@.len() == 32,
        data@.len() % 16 == 0,
    ensures
        r@ == ecb_encrypt(key@, data@),
{
    let n = data.len();
    let mut out: Vec<u8> = Vec::new();
    let mut i: usize = 0;
    while i < n
        invariant
            n == data@.len(),
            n % 16 == 0,
            i % 16 == 0,
            i <= n,
            key@.len() == 32,
            out@ == ecb_encrypt(key@, data@.take(i as int)),
        decreases n - i,
    {
        let mut block: Vec<u8> = Vec::new();
        let mut k: usize = 0;
        while k < BLOCK_LEN
            invariant
                k <= 16,
                i + 16 <= n,
                n == data@.len(),
                block@ == data@.subrange(i as int, i + k),
            decreases 16 - k,
        {
            block.push(data[i + k]);
            k = k + 1;
            assert(block@ =~= data@.subrange(i as int, i + k));
        }
        let enc = aes256_encrypt_block(key, block.as_slice());
        let ghost prev = data@.take(i as int);
        let ghost next = data@.take(i + 16);
        assert(next.take(next.len() - 16) =~= prev);
        assert(next.skip(next.len() - 16) =~= block@);
        let mut k2: usize = 0;
        let ghost before = out@;
        while k2 < enc.len()
            invariant
                k2 <= enc@.len(),
                out@ == before + enc@.take(k2 as int),
            decreases enc@.len() - k2,
        {
            out.push(enc[k2]);
            k2 = k2 + 1;
            assert(out@ =~= before + enc@.take(k2 as int));
        }
        assert(enc@.take(enc@.len() as int) =~= enc@);
        i = i + 16;
    }
    assert(data@.take(n as int) =~= data@);
    out
}

/// The standard base64 encoding of `b`. Named because its definition is
/// RFC 4648; it depends on the bytes alone.
pub uninterp spec fn base64_of(b: Seq<u8>) -> Seq<char>;

/// A character of the standard base64 alphabet, or the padding `=`.
pub open spec fn is_base64_char(c: char) -> bool {
    ('A' <= c <= 'Z') || ('a' <= c <= 'z') || ('0' <= c <= '9') || c == '+' || c == '/' || c
        == '='
}

/// Relies on the `base64` crate's `engine::general_purpose::STANDARD`
/// (`Engine::encode`): the standard alphabet with `=` padding, four characters
/// for each started group of three bytes.
#[verifier::external_body]
fn base64_encode(b: &[u8]) -> (r: String)
    ensures
        r@ == base64_of(b@),
        r@.len() == 4 * ((b@.len() + 2) / 3),
        forall|i: int| 0 <= i < r@.len() ==> is_base64_char(#[trigger] r@[i]),
{
    base64::engine::general_purpose::STANDARD.encode(b)
}

/// Relies on `String`'s `FromIterator<char>` (`collect`): the string made of
/// the given characters, in order.
#[verifier::external_body]
fn string_of(chars: &Vec<char>) -> (r: String)
    ensures
        r@ == chars@,
{
    chars.iter().collect()
}

/// Relies on the `rand` crate's `OsRng` (`RngCore::try_fill_bytes`): a
/// 32-byte buffer filled from the operating system's generator, or `None`
/// when that generator reports an error. Nothing is known of the bytes.
#[verifier::external_body]
fn fresh_key() -> (r: Option<Vec<u8>>)
    ensures
        r matches Some(k) ==> k@.len() == 32,
{
    let mut key = vec![0u8; KEY_LEN];
    match rand::rngs::OsRng.try_fill_bytes(&mut key) {
        Ok(()) => Some(key),
        Err(_) => None,
    }
}

/// The encoding of a literal's content under `key`: UTF-8 bytes, zero-padded
/// to whole blocks, encrypted in raw ECB, then base64.
pub open spec fn encrypted_content(key: Seq<u8>, bytes: Seq<u8>) -> Seq<char> {
    base64_of(ecb_encrypt(key, zero_pad(bytes)))
}

/// Encrypts `input` under the given 32-byte key and encodes the ciphertext
/// in base64.
pub fn encrypt_literal(input: &str, key: &[u8]) -> (r: String)
    requires
        key@.len() == 32,
    ensures
        r@ == encrypted_content(key@, encode_utf8(input@)),
        forall|i: int| 0 <= i < r@.len() ==> is_base64_char(#[trigger] r@[i]),
{
    let bytes = input.as_bytes_vec();
    let padded = zero_pad_bytes(&bytes);
    let enc = ecb_encrypt_blocks(key, &padded);
    base64_encode(enc.as_slice())
}

/// Encrypts `input` under a freshly drawn random key, which is then
/// discarded, and encodes the ciphertext in base64; `None` when the
/// operating system's generator could not supply a key.
pub fn encrypt_string(input: &str) -> (r: Option<String>)
    ensures
        r matches Some(s) ==> exists|key: Seq<u8>|
            key.len() == 32 && s@ == encrypted_content(key, encode_utf8(input@)),
{
    match fresh_key() {
        Some(key) => Some(encrypt_literal(input, key.as_slice())),
        None => None,
    }
}

/// The quoted token that replaces a literal whose content is `content`.
pub open spec fn literal_token(key: Seq<u8>, content: Seq<char>) -> Seq<char> {
    seq!['"'] + encrypted_content(key, encode_utf8(content)) + seq!['"']
}

/// The text after the first `n` literals of `orig` have been replaced, each
/// wherever its text occurs in the text at that moment.
pub open spec fn obfuscate_steps(orig: Seq<char>, keys: Seq<Seq<u8>>, n: nat) -> Seq<char>
    decreases n,
{
    if n == 0 {
        orig
    } else {
        let sp = literal_spans_spec(orig)[n - 1];
        let lit = orig.subrange(sp.0, sp.1);
        replace_all(
            obfuscate_steps(orig, keys, (n - 1) as nat),
            lit,
            literal_token(keys[n - 1], literal_content(lit)),
        )
    }
}

/// The transform of `orig`, the `k`-th literal encrypted under `keys[k]`.
pub open spec fn obfuscated(orig: Seq<char>, keys: Seq<Seq<u8>>) -> Seq<char> {
    obfuscate_steps(orig, keys, literal_spans_spec(orig).len())
}

/// The views of a list of keys.
pub open spec fn key_views(keys: Seq<Vec<u8>>) -> Seq<Seq<u8>> {
    Seq::new(keys.len(), |i: int| keys[i]@)
}

/// Copies the characters `s[from..to]`.
fn copy_range(s: &Vec<char>, from: usize, to: usize) -> (r: Vec<char>)
    requires
        from <= to <= s@.len(),
    ensures
        r@ == s@.subrange(from as int, to as int),
{
    let mut out: Vec<char> = Vec::new();
    let mut i: usize = from;
    while i < to
        invariant
            from <= i <= to,
            to <= s@.len(),
            out@ == s@.subrange(from as int, i as int),
        decreases to - i,
    {
        out.push(s[i]);
        i = i + 1;
        assert(out@ =~= s@.subrange(from as int, i as int));
    }
    out
}

/// Wraps `body` in double quotes.
fn quoted(body: &Vec<char>) -> (r: Vec<char>)
    ensures
        r@ == seq!['"'] + body@ + seq!['"'],
{
    let mut out: Vec<char> = Vec::new();
    out.push('"');
    let mut i: usize = 0;
    while i < body.len()
        invariant
            i <= body@.len(),
            out@ == seq!['"'] + body@.take(i as int),
        decreases body@.len() - i,
    {
        out.push(body[i]);
        i = i + 1;
        assert(out@ =~= seq!['"'] + body@.take(i as int));
    }
    out.push('"');
    assert(body@.take(body@.len() as int) =~= body@);
    assert(out@ =~= seq!['"'] + body@ + seq!['"']);
    out
}

/// The transform with the keys given: the `k`-th literal of `text` is
/// encrypted under `keys[k]`, and its text is replaced by the quoted encoding
/// wherever it occurs in the text at that moment.
pub fn obfuscate_with_keys(text: &str, keys: &Vec<Vec<u8>>) -> (r: String)
    requires
        keys@.len() == literal_spans_spec(text@).len(),
        forall|i: int| 0 <= i < keys@.len() ==> (#[trigger] keys@[i])@.len() == 32,
    ensures
        r@ == obfuscated(text@, key_views(keys@)),
{
    let orig = chars_of(text);
    let spans = literal_spans(&orig);
    let mut cur = chars_of(text);
    let mut k: usize = 0;
    while k < spans.len()
        invariant
            orig@ == text@,
            k <= spans@.len(),
            spans@.len() == literal_spans_spec(text@).len(),
            keys@.len() == spans@.len(),
            forall|i: int| 0 <= i < keys@.len() ==> (#[trigger] keys@[i])@.len() == 32,
            forall|i: int|
                0 <= i < spans@.len() ==> spans@[i].0 as int == literal_spans_spec(text@)[i].0
                    && spans@[i].1 as int == literal_spans_spec(text@)[i].1,
            forall|i: int| 0 <= i < spans@.len() ==> (#[trigger] spans@[i]).0 < spans@[i].1 <= orig@.len(),
            cur@ == obfuscate_steps(text@, key_views(keys@), k as nat),
        decreases spans@.len() - k,
    {
        let (p, e) = spans[k];
        let lit = copy_range(&orig, p, e);
        let content = trim_quotes(&lit);
        let content_str = string_of(&content);
        let token = literal_token_chars(content_str.as_str(), keys[k].as_slice());
        assert(key_views(keys@)[k as int] == keys@[k as int]@);
        cur = replace_all_chars(&cur, &lit, &token);
        k = k + 1;
    }
    string_of(&cur)
}

/// The transform: every literal of `text` encrypted under a fresh random
/// key, which is discarded. `None` when the operating system's generator
/// could not supply a key; a text without literals needs none and comes back
/// unchanged.
pub fn obfuscate_source(text: &str) -> (r: Option<String>)
    ensures
        literal_spans_spec(text@).len() == 0 ==> (r matches Some(s) && s@ == text@),
        r matches Some(s) ==> exists|keys: Seq<Seq<u8>>|
            keys.len() == literal_spans_spec(text@).len() && (forall|i: int|
                0 <= i < keys.len() ==> (#[trigger] keys[i]).len() == 32) && s@ == obfuscated(
                text@,
                keys,
            ),
{
    let orig = chars_of(text);
    let spans = literal_spans(&orig);
    let mut keys: Vec<Vec<u8>> = Vec::new();
    let mut k: usize = 0;
    while k < spans.len()
        invariant
            k <= spans@.len(),
            spans@.len() == literal_spans_spec(text@).len(),
            keys@.len() == k,
            forall|i: int| 0 <= i < keys@.len() ==> (#[trigger] keys@[i])@.len() == 32,
        decreases spans@.len() - k,
    {
        match fresh_key() {
            Some(key) => keys.push(key),
            None => return None,
        }
        k = k + 1;
    }
    let r = obfuscate_with_keys(text, &keys);
    let ghost kv = key_views(keys@);
    assert forall|i: int| 0 <= i < kv.len() implies (#[trigger] kv[i]).len() == 32 by {
        assert(kv[i] == keys@[i]@);
    }
    Some(r)
}

/// Scanning a body of base64 characters closed by a quote ends right after
/// that quote.
proof fn lemma_base64_body_scan(t: Seq<char>, j: int)
    requires
        t.len() >= 2,
        1 <= j <= t.len() - 1,
        t[t.len() - 1] == '"',
        forall|i: int| 1 <= i < t.len() - 1 ==> is_base64_char(#[trigger] t[i]),
    ensures
        literal_end(t, j) == Some(t.len() as int),
    decreases t.len() - j,
{
    if j < t.len() - 1 {
        assert(is_base64_char(t[j]));
        lemma_base64_body_scan(t, j + 1);
    }
}

/// Every replacement token is itself one whole double-quoted literal with no
/// quote or backslash inside: the output stays a text of quoted tokens.
pub proof fn lemma_token_is_literal(enc: Seq<char>)
    requires
        forall|i: int| 0 <= i < enc.len() ==> is_base64_char(#[trigger] enc[i]),
    ensures
        literal_at(seq!['"'] + enc + seq!['"'], 0) == Some(enc.len() as int + 2),
        literal_spans_spec(seq!['"'] + enc + seq!['"']) == seq![(0int, enc.len() as int + 2)],
{
    let t = seq!['"'] + enc + seq!['"'];
    assert forall|i: int| 1 <= i < t.len() - 1 implies is_base64_char(#[trigger] t[i]) by {
        assert(t[i] == enc[i - 1]);
    }
    lemma_base64_body_scan(t, 1);
    assert(spans_from(t, t.len() as int) == Seq::<(int, int)>::empty());
    assert(literal_spans_spec(t) =~= seq![(0int, enc.len() as int + 2)]);
}

/// What the base64 wrapper promises of its result makes the token of a
/// literal one whole quoted literal.
pub fn literal_token_chars(content: &str, key: &[u8]) -> (r: Vec<char>)
    requires
        key@.len() == 32,
    ensures
        r@ == literal_token(key@, content@),
        literal_spans_spec(r@) == seq![(0int, r@.len() as int)],
{
    let enc = encrypt_literal(content, key);
    let enc_chars = chars_of(enc.as_str());
    proof {
        lemma_token_is_literal(enc_chars@);
    }
    quoted(&enc_chars)
}

} // verus!
