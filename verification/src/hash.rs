//! Content hashing with BLAKE3.
//!
//! [`ContentHash`] is a 32-byte BLAKE3 digest with a lowercase-hex
//! rendering. [`CacheKey`] combines three content hashes (inputs, script,
//! interpreter) into the address of a cache entry.

use vstd::prelude::*;
use vstd::utf8::*;
use crate::cache_error::{CacheError, CacheErrorKind};
use crate::target::Target;
use crate::text::{dec_digits, is_white_space, str_trim, trimmed, usize_to_string};

verus! {

/// The BLAKE3 digest of `data`.
pub uninterp spec fn blake3_digest(data: Seq<u8>) -> Seq<u8>;

/// Calls `blake3::hash` and takes the digest's bytes
/// (`Hash::as_bytes`): the 32-byte BLAKE3 digest of `data`, named
/// [`blake3_digest`].
#[verifier::external_body]
fn blake3_hash(data: &[u8]) -> (r: [u8; 32])
    ensures
        r@ == blake3_digest(data@),
{
    *blake3::hash(data).as_bytes()
}

/// The lowercase hex digit of `d < 16`.
pub open spec fn hex_digit(d: int) -> char {
    if d < 10 {
        (48 + d) as char
    } else {
        (87 + d) as char
    }
}

/// The lowercase hex rendering of bytes, two digits per byte.
pub open spec fn hex_of_bytes(b: Seq<u8>) -> Seq<char>
    decreases b.len(),
{
    if b.len() == 0 {
        seq![]
    } else {
        hex_of_bytes(b.drop_last()) + seq![hex_digit((b.last() / 16) as int), hex_digit((b.last() % 16) as int)]
    }
}

/// The value of an ASCII hex digit (either case).
pub open spec fn hex_value(c: u8) -> Option<u8> {
    if 48 <= c <= 57 {
        Some((c - 48) as u8)
    } else if 97 <= c <= 102 {
        Some((c - 87) as u8)
    } else if 65 <= c <= 70 {
        Some((c - 55) as u8)
    } else {
        None
    }
}

/// The byte that the two bytes `a b` spell when both are hex digits.
pub open spec fn pair_value(a: u8, b: u8) -> Option<u8> {
    if hex_value(a) is Some && hex_value(b) is Some {
        Some((16 * hex_value(a)->0 + hex_value(b)->0) as u8)
    } else {
        None
    }
}

/// The first of the first `m` byte pairs that is not a hex byte, or `-1`.
pub open spec fn hex_stop(b: Seq<u8>, m: nat) -> int
    decreases m,
{
    if m == 0 {
        -1
    } else {
        let r = hex_stop(b, (m - 1) as nat);
        if r >= 0 {
            r
        } else if pair_value(b[2 * (m - 1)], b[2 * (m - 1) + 1]) is None {
            m - 1
        } else {
            -1
        }
    }
}

/// The 32 bytes that 64 hex characters spell.
pub open spec fn hex_bytes(b: Seq<u8>) -> Seq<u8> {
    Seq::new(32, |i: int| pair_value(b[2 * i], b[2 * i + 1])->0)
}

/// The corruption message for a digest of the wrong length.
pub open spec fn bad_length_message(t: Seq<char>) -> Seq<char> {
    "invalid hash length: expected 64 hex chars, got "@ + dec_digits(encode_utf8(t).len())
}

/// The corruption message for a pair that is not a hex byte.
pub open spec fn bad_char_message(t: Seq<char>, i: int) -> Seq<char> {
    "invalid hex character at position "@ + dec_digits((2 * i) as nat) + " in `"@ + t + "`"@
}

/// The digest that `s` spells in hex (ignoring surrounding whitespace),
/// when it does.
pub open spec fn hex_digest(s: Seq<char>) -> Option<Seq<u8>> {
    let b = encode_utf8(trimmed(s));
    if b.len() == 64 && hex_stop(b, 32) < 0 {
        Some(hex_bytes(b))
    } else {
        None
    }
}

/// The corruption message for text that does not spell a digest.
pub open spec fn hex_error_message(s: Seq<char>) -> Seq<char> {
    let t = trimmed(s);
    let b = encode_utf8(t);
    if b.len() != 64 {
        bad_length_message(t)
    } else {
        bad_char_message(t, hex_stop(b, 32))
    }
}

/// Whether `r` is what parsing `s` as a hex digest gives.
pub open spec fn from_hex_result(s: Seq<char>, r: Result<ContentHash, CacheError>) -> bool {
    match hex_digest(s) {
        Some(d) => r matches Ok(h) && h.0@ == d,
        None => r matches Err(e) && e.kind() matches CacheErrorKind::Corruption { context } && context@
            == hex_error_message(s),
    }
}

/// A 32-byte BLAKE3 content hash.
#[derive(Debug, Clone, Copy, Eq, Hash)]
pub struct ContentHash(pub [u8; 32]);

impl PartialEq for ContentHash {
    fn eq(&self, other: &Self) -> (r: bool) {
        let mut i: usize = 0;
        while i < 32
            invariant
                i <= 32,
                forall|j: int| 0 <= j < i ==> self.0@[j] == other.0@[j],
            decreases 32 - i,
        {
            if self.0[i] != other.0[i] {
                return false;
            }
            i = i + 1;
        }
        proof {
            assert(self.0@ =~= other.0@);
        }
        true
    }
}

impl vstd::std_specs::cmp::PartialEqSpecImpl for ContentHash {
    open spec fn obeys_eq_spec() -> bool {
        true
    }

    open spec fn eq_spec(&self, other: &Self) -> bool {
        self.0@ == other.0@
    }
}

fn hex_digit_str(d: u8) -> (r: &'static str)
    requires
        d < 16,
    ensures
        r@ == seq![hex_digit(d as int)],
{
    if d == 0 {
        proof { reveal_strlit("0"); }
        "0"
    } else if d == 1 {
        proof { reveal_strlit("1"); }
        "1"
    } else if d == 2 {
        proof { reveal_strlit("2"); }
        "2"
    } else if d == 3 {
        proof { reveal_strlit("3"); }
        "3"
    } else if d == 4 {
        proof { reveal_strlit("4"); }
        "4"
    } else if d == 5 {
        proof { reveal_strlit("5"); }
        "5"
    } else if d == 6 {
        proof { reveal_strlit("6"); }
        "6"
    } else if d == 7 {
        proof { reveal_strlit("7"); }
        "7"
    } else if d == 8 {
        proof { reveal_strlit("8"); }
        "8"
    } else if d == 9 {
        proof { reveal_strlit("9"); }
        "9"
    } else if d == 10 {
        proof { reveal_strlit("a"); }
        "a"
    } else if d == 11 {
        proof { reveal_strlit("b"); }
        "b"
    } else if d == 12 {
        proof { reveal_strlit("c"); }
        "c"
    } else if d == 13 {
        proof { reveal_strlit("d"); }
        "d"
    } else if d == 14 {
        proof { reveal_strlit("e"); }
        "e"
    } else {
        proof { reveal_strlit("f"); }
        "f"
    }
}

/// The hex value of an ASCII byte, if it is a hex digit.
fn hex_value_of(c: u8) -> (r: Option<u8>)
    ensures
        r == hex_value(c),
{
    if 48 <= c && c <= 57 {
        Some(c - 48)
    } else if 97 <= c && c <= 102 {
        Some(c - 87)
    } else if 65 <= c && c <= 70 {
        Some(c - 55)
    } else {
        None
    }
}

/// Renders the first `m` bytes in hex.
fn hex_prefix(b: &[u8; 32], m: usize) -> (r: String)
    requires
        m <= 32,
    ensures
        r@ == hex_of_bytes(b@.take(m as int)),
{
    let mut s = String::new();
    let mut i: usize = 0;
    while i < m
        invariant
            i <= m <= 32,
            s@ == hex_of_bytes(b@.take(i as int)),
        decreases m - i,
    {
        let byte = b[i];
        let hi = hex_digit_str(byte / 16);
        let lo = hex_digit_str(byte % 16);
        s.append(hi);
        s.append(lo);
        proof {
            assert(b@.take(i + 1).drop_last() =~= b@.take(i as int));
            assert(b@.take(i + 1).last() == byte);
        }
        i = i + 1;
    }
    s
}

/// The hex of a prefix is the prefix of the hex.
proof fn lemma_hex_prefix(b: Seq<u8>, m: int)
    requires
        0 <= m <= b.len(),
    ensures
        hex_of_bytes(b.take(m)) == hex_of_bytes(b).take(2 * m),
        hex_of_bytes(b).len() == 2 * b.len(),
    decreases b.len(),
{
    if b.len() > 0 {
        if m == b.len() {
            assert(b.take(m) =~= b);
            lemma_hex_prefix(b.drop_last(), 0);
        } else {
            lemma_hex_prefix(b.drop_last(), m);
            assert(b.drop_last().take(m) =~= b.take(m));
        }
    }
}

impl ContentHash {
    /// Wraps 32 raw bytes.
    pub fn from_bytes(bytes: [u8; 32]) -> (r: Self)
        ensures
            r.0 == bytes,
    {
        ContentHash(bytes)
    }

    /// The BLAKE3 digest of `data`.
    pub fn from_data(data: &[u8]) -> (r: Self)
        ensures
            r.0@ == blake3_digest(data@),
    {
        ContentHash(blake3_hash(data))
    }

    /// Parses a 64-character hex digest (either case), ignoring leading and
    /// trailing whitespace. Fails with a corruption error on any other
    /// length, or at the first byte pair that is not two hex digits
    /// (a non-ASCII character, a sign or any other non-hex character).
    pub fn from_hex(s: &str) -> (r: Result<Self, CacheError>)
        ensures
            from_hex_result(s@, r),
            r is Ok <==> (trimmed(s@).len() == 64 && forall|k: int|
                0 <= k < 64 ==> is_hex_char(#[trigger] trimmed(s@)[k])),
            r matches Ok(h) ==> hex_of_bytes(h.0@) == trimmed(s@).map_values(|c: char| lower_hex_char(c)),
    {
        proof {
            hex_digest_reads_exactly_hex_text(s@);
        }
        let t = str_trim(s);
        let b = t.as_bytes();
        if b.len() != 64 {
            let mut msg = String::from_str("invalid hash length: expected 64 hex chars, got ");
            let n = usize_to_string(b.len());
            msg.append(n.as_str());
            return Err(CacheError::corruption(msg.as_str()));
        }
        let mut bytes = [0u8; 32];
        let mut i: usize = 0;
        while i < 32
            invariant
                b@ == encode_utf8(t@),
                b@.len() == 64,
                t@ == trimmed(s@),
                i <= 32,
                hex_stop(b@, i as nat) < 0,
                forall|j: int| 0 <= j < i ==> #[trigger] bytes@[j] == hex_bytes(b@)[j],
            decreases 32 - i,
        {
            let hi = hex_value_of(b[2 * i]);
            let lo = hex_value_of(b[2 * i + 1]);
            let v: Option<u8> = match (hi, lo) {
                (Some(x), Some(y)) => Some(16 * x + y),
                _ => None,
            };
            proof {
                assert(v == pair_value(b@[2 * i as int], b@[2 * i + 1]));
            }
            match v {
                Some(x) => {
                    bytes[i] = x;
                },
                None => {
                    proof {
                        assert(hex_stop(b@, (i + 1) as nat) == i);
                        lemma_hex_stop_stable(b@, (i + 1) as nat, 32);
                        assert(hex_digest(s@) is None);
                        hex_digest_reads_exactly_hex_text(s@);
                    }
                    let mut msg = String::from_str("invalid hex character at position ");
                    let pos = usize_to_string(2 * i);
                    msg.append(pos.as_str());
                    msg.append(" in `");
                    msg.append(t);
                    msg.append("`");
                    return Err(CacheError::corruption(msg.as_str()));
                },
            }
            i = i + 1;
        }
        proof {
            assert(bytes@ =~= hex_bytes(b@));
        }
        Ok(ContentHash(bytes))
    }

    /// The 64-character lowercase hex rendering.
    pub fn to_hex(&self) -> (r: String)
        ensures
            r@ == hex_of_bytes(self.0@),
            r@.len() == 64,
    {
        proof {
            assert(self.0@.take(32) =~= self.0@);
            lemma_hex_prefix(self.0@, 32);
        }
        hex_prefix(&self.0, 32)
    }

    /// The first 8 hex characters, for display.
    pub fn short(&self) -> (r: String)
        ensures
            r@ == hex_of_bytes(self.0@).take(8),
    {
        proof {
            lemma_hex_prefix(self.0@, 4);
        }
        hex_prefix(&self.0, 4)
    }

    /// Renders the hash as its 64 hex characters.
    pub fn to_string(&self) -> (r: String)
        ensures
            r@ == hex_of_bytes(self.0@),
    {
        self.to_hex()
    }
}

/// Once a stop is found among a prefix of pairs, longer prefixes find it.
proof fn lemma_hex_stop_stable(b: Seq<u8>, a: nat, c: nat)
    requires
        a <= c,
        hex_stop(b, a) >= 0,
    ensures
        hex_stop(b, c) == hex_stop(b, a),
    decreases c - a,
{
    if c > a {
        lemma_hex_stop_stable(b, a, (c - 1) as nat);
    }
}

/// Lines joined with `\n` between them.
pub open spec fn join_lines(xs: Seq<Seq<char>>) -> Seq<char>
    decreases xs.len(),
{
    if xs.len() == 0 {
        seq![]
    } else if xs.len() == 1 {
        xs[0]
    } else {
        join_lines(xs.drop_last()) + seq!['\n'] + xs.last()
    }
}

/// The views of a sequence of strings.
pub open spec fn strings_view(xs: Seq<String>) -> Seq<Seq<char>> {
    xs.map_values(|s: String| s@)
}

/// Law: joining puts exactly one `\n` between consecutive lines: one
/// line joins to itself, and adding a line to a non-empty list appends a
/// `\n` and the line.
pub proof fn join_lines_separates_each_pair(xs: Seq<Seq<char>>, y: Seq<char>)
    ensures
        join_lines(seq![y]) == y,
        xs.len() > 0 ==> join_lines(xs.push(y)) == join_lines(xs) + seq!['\n'] + y,
{
    assert(xs.push(y).drop_last() =~= xs);
}

/// A line without a `\n`.
pub open spec fn is_single_line(x: Seq<char>) -> bool {
    forall|i: int| 0 <= i < x.len() ==> x[i] != '\n'
}

/// Where the last separator of a joined list stands.
proof fn lemma_join_last_separator(xs: Seq<Seq<char>>)
    requires
        xs.len() >= 2,
    ensures
        join_lines(xs).len() == join_lines(xs.drop_last()).len() + 1 + xs.last().len(),
        join_lines(xs)[join_lines(xs.drop_last()).len() as int] == '\n',
        join_lines(xs).subrange(0, join_lines(xs.drop_last()).len() as int) == join_lines(xs.drop_last()),
        join_lines(xs).subrange(join_lines(xs.drop_last()).len() + 1int, join_lines(xs).len() as int) == xs.last(),
{
    let j = join_lines(xs.drop_last());
    assert(join_lines(xs) == j + seq!['\n'] + xs.last());
    assert((j + seq!['\n'] + xs.last()).subrange(0, j.len() as int) =~= j);
    assert((j + seq!['\n'] + xs.last()).subrange(j.len() + 1int, (j + seq!['\n'] + xs.last()).len() as int)
        =~= xs.last());
}

/// Law: joined single lines split back into the lines: two non-empty lists
/// of lines without `\n` join to the same text only when they are equal,
/// so different input lists never share a blob.
pub proof fn join_lines_splits_back(xs: Seq<Seq<char>>, ys: Seq<Seq<char>>)
    requires
        xs.len() > 0,
        ys.len() > 0,
        forall|i: int| 0 <= i < xs.len() ==> is_single_line(#[trigger] xs[i]),
        forall|i: int| 0 <= i < ys.len() ==> is_single_line(#[trigger] ys[i]),
        join_lines(xs) == join_lines(ys),
    ensures
        xs == ys,
    decreases xs.len() + ys.len(),
{
    let t = join_lines(xs);
    if xs.len() == 1 && ys.len() == 1 {
        assert(xs =~= ys);
    } else if xs.len() == 1 {
        lemma_join_last_separator(ys);
        assert(is_single_line(xs[0]));
        assert(t[join_lines(ys.drop_last()).len() as int] == '\n');
    } else if ys.len() == 1 {
        lemma_join_last_separator(xs);
        assert(is_single_line(ys[0]));
        assert(t[join_lines(xs.drop_last()).len() as int] == '\n');
    } else {
        lemma_join_last_separator(xs);
        lemma_join_last_separator(ys);
        let xl = xs.last();
        let yl = ys.last();
        let n = t.len();
        let px = join_lines(xs.drop_last()).len() as int;
        let py = join_lines(ys.drop_last()).len() as int;
        assert(is_single_line(xl) && is_single_line(yl));
        // The separator before the shorter last line would fall inside the
        // longer one.
        if px != py {
            if px > py {
                assert(t.subrange(py + 1, n as int)[px - py - 1] == t[px]);
                assert(yl[px - py - 1] == '\n');
            } else {
                assert(t.subrange(px + 1, n as int)[py - px - 1] == t[py]);
                assert(xl[py - px - 1] == '\n');
            }
        }
        assert(px == py);
        assert(xl == yl);
        assert(join_lines(xs.drop_last()) == join_lines(ys.drop_last()));
        assert forall|i: int| 0 <= i < xs.drop_last().len() implies is_single_line(#[trigger] xs.drop_last()[i]) by {
            assert(xs.drop_last()[i] == xs[i]);
        }
        assert forall|i: int| 0 <= i < ys.drop_last().len() implies is_single_line(#[trigger] ys.drop_last()[i]) by {
            assert(ys.drop_last()[i] == ys[i]);
        }
        join_lines_splits_back(xs.drop_last(), ys.drop_last());
        assert(xs =~= xs.drop_last().push(xl));
        assert(ys =~= ys.drop_last().push(yl));
    }
}

/// Joins lines with `\n` (`[String]::join`).
fn join_with_newlines(xs: &Vec<String>) -> (r: String)
    ensures
        r@ == join_lines(strings_view(xs@)),
{
    let mut s = String::new();
    let mut i: usize = 0;
    while i < xs.len()
        invariant
            i <= xs@.len(),
            s@ == join_lines(strings_view(xs@.take(i as int))),
        decreases xs@.len() - i,
    {
        proof {
            assert(strings_view(xs@.take(i + 1)).drop_last() =~= strings_view(xs@.take(i as int)));
            assert(strings_view(xs@.take(i + 1)).last() == xs@[i as int]@);
        }
        if i > 0 {
            proof { reveal_strlit("\n"); }
            s.append("\n");
        } else {
            proof {
                assert(strings_view(xs@.take(1))[0] == xs@[0]@);
            }
        }
        s.append(xs[i].as_str());
        i = i + 1;
    }
    proof {
        assert(xs@.take(xs@.len() as int) =~= xs@);
    }
    s
}

/// The address of a cache entry: hashes of a target's inputs, script and
/// interpreter.
#[derive(Debug, Clone, Eq, Hash)]
pub struct CacheKey {
    /// Hash of the target's declared inputs.
    pub input_hash: ContentHash,
    /// Hash of the script.
    pub script_hash: ContentHash,
    /// Hash of the interpreter.
    pub tool_hash: ContentHash,
}

impl PartialEq for CacheKey {
    fn eq(&self, other: &Self) -> (r: bool) {
        self.input_hash == other.input_hash && self.script_hash == other.script_hash && self.tool_hash
            == other.tool_hash
    }
}

impl vstd::std_specs::cmp::PartialEqSpecImpl for CacheKey {
    open spec fn obeys_eq_spec() -> bool {
        true
    }

    open spec fn eq_spec(&self, other: &Self) -> bool {
        self.input_hash.0@ == other.input_hash.0@ && self.script_hash.0@ == other.script_hash.0@
            && self.tool_hash.0@ == other.tool_hash.0@
    }
}

/// The bytes hashed for a key's combined digest: the three hashes in order.
pub open spec fn key_bytes(k: CacheKey) -> Seq<u8> {
    k.input_hash.0@ + k.script_hash.0@ + k.tool_hash.0@
}

/// The digest a key is stored under.
pub open spec fn combined_digest(k: CacheKey) -> Seq<u8> {
    blake3_digest(key_bytes(k))
}

impl CacheKey {
    /// Groups three hashes into a key.
    pub fn new(input_hash: ContentHash, script_hash: ContentHash, tool_hash: ContentHash) -> (r: Self)
        ensures
            r.input_hash == input_hash,
            r.script_hash == script_hash,
            r.tool_hash == tool_hash,
    {
        CacheKey { input_hash, script_hash, tool_hash }
    }

    /// The BLAKE3 digest of the three hashes laid end to end.
    pub fn combined(&self) -> (r: ContentHash)
        ensures
            r.0@ == combined_digest(*self),
    {
        let mut data = [0u8; 96];
        let mut i: usize = 0;
        while i < 32
            invariant
                i <= 32,
                forall|j: int| 0 <= j < i ==> #[trigger] data@[j] == self.input_hash.0@[j],
                forall|j: int| 0 <= j < i ==> #[trigger] data@[32 + j] == self.script_hash.0@[j],
                forall|j: int| 0 <= j < i ==> #[trigger] data@[64 + j] == self.tool_hash.0@[j],
            decreases 32 - i,
        {
            data[i] = self.input_hash.0[i];
            data[32 + i] = self.script_hash.0[i];
            data[64 + i] = self.tool_hash.0[i];
            i = i + 1;
        }
        proof {
            let kb = key_bytes(*self);
            assert forall|k: int| 0 <= k < 96 implies data@[k] == kb[k] by {
                if k < 32 {
                    assert(data@[k] == self.input_hash.0@[k]);
                } else if k < 64 {
                    assert(data@[32 + (k - 32)] == self.script_hash.0@[k - 32]);
                } else {
                    assert(data@[64 + (k - 64)] == self.tool_hash.0@[k - 64]);
                }
            }
            assert(data@ =~= kb);
        }
        ContentHash::from_data(&data)
    }

    /// The key of a target: the hashes of its inputs joined by `\n`, of
    /// its script, and of its interpreter.
    pub fn from_target(target: &Target) -> (r: Self)
        ensures
            r.input_hash.0@ == blake3_digest(encode_utf8(join_lines(strings_view(target.inputs@)))),
            r.script_hash.0@ == blake3_digest(encode_utf8(target.run.code@)),
            r.tool_hash.0@ == blake3_digest(encode_utf8(target.run.interpreter@)),
    {
        let input_blob = join_with_newlines(&target.inputs);
        CacheKey::new(
            ContentHash::from_data(input_blob.as_str().as_bytes()),
            ContentHash::from_data(target.run.code.as_str().as_bytes()),
            ContentHash::from_data(target.run.interpreter.as_str().as_bytes()),
        )
    }

    /// Renders the key as the hex of its combined digest.
    pub fn to_string(&self) -> (r: String)
        ensures
            r@ == hex_of_bytes(combined_digest(*self)),
    {
        self.combined().to_hex()
    }
}

} // verus!

verus! {

/// The characters of a hex rendering: two per byte, high digit first.
proof fn lemma_hex_chars(b: Seq<u8>)
    ensures
        hex_of_bytes(b).len() == 2 * b.len(),
        forall|i: int|
            0 <= i < b.len() ==> hex_of_bytes(b)[2 * i] == hex_digit((b[i] / 16) as int) && hex_of_bytes(
                b,
            )[2 * i + 1] == hex_digit((b[i] % 16) as int),
    decreases b.len(),
{
    if b.len() > 0 {
        let p = b.drop_last();
        lemma_hex_chars(p);
        assert forall|i: int| 0 <= i < b.len() implies hex_of_bytes(b)[2 * i] == hex_digit(
            (b[i] / 16) as int,
        ) && hex_of_bytes(b)[2 * i + 1] == hex_digit((b[i] % 16) as int) by {
            if i < b.len() - 1 {
                assert(b[i] == p[i]);
            }
        }
    }
}

/// A hex digit is an ASCII character whose byte has that value.
proof fn lemma_hex_digit_value(d: int)
    requires
        0 <= d < 16,
    ensures
        (hex_digit(d) as u32) < 128,
        '\0' <= hex_digit(d) <= '\u{7f}',
        hex_value(hex_digit(d) as u8) == Some(d as u8),
        !is_white_space(hex_digit(d)),
{
}

/// Text without whitespace at either end is its own trim.
proof fn lemma_trimmed_unchanged(s: Seq<char>)
    requires
        s.len() > 0,
        !is_white_space(s[0]),
        !is_white_space(s.last()),
    ensures
        trimmed(s) == s,
{
}

/// The pairs of a rendering all read back.
proof fn lemma_hex_stop_none(bytes: Seq<u8>, b: Seq<u8>, m: nat)
    requires
        bytes.len() == 2 * b.len(),
        m <= b.len(),
        forall|k: int| 0 <= k < bytes.len() ==> #[trigger] bytes[k] < 0x80,
        forall|i: int| 0 <= i < b.len() ==> pair_value(#[trigger] bytes[2 * i], bytes[2 * i + 1]) == Some(b[i]),
    ensures
        hex_stop(bytes, m) < 0,
    decreases m,
{
    if m > 0 {
        lemma_hex_stop_none(bytes, b, (m - 1) as nat);
        let i = m - 1;
        assert(pair_value(bytes[2 * i], bytes[2 * i + 1]) == Some(b[i]));
        assert(2 * i + 2 == bytes.len() || bytes[2 * i + 2] < 0x80);
    }
}

/// A hexadecimal digit, in either case.
pub open spec fn is_hex_char(c: char) -> bool {
    ('0' <= c && c <= '9') || ('a' <= c && c <= 'f') || ('A' <= c && c <= 'F')
}

/// A hex digit in lowercase.
pub open spec fn lower_hex_char(c: char) -> char {
    if 'A' <= c && c <= 'F' {
        ((c as u32) + 32) as char
    } else {
        c
    }
}

/// The leading byte of the UTF-8 encoding of a character beyond ASCII
/// has its top bit set.
proof fn lemma_leading_bytes_high(v: u32)
    by (bit_vector)
    ensures
        (0xC0u8 | ((v >> 6u32) & 0x1Fu32) as u8) >= 0x80u8,
        (0xE0u8 | ((v >> 12u32) & 0x0Fu32) as u8) >= 0x80u8,
        (0xF0u8 | ((v >> 18u32) & 0x7u32) as u8) >= 0x80u8,
{
}

/// Text whose UTF-8 bytes are all below `0x80` is ASCII.
proof fn lemma_ascii_bytes_ascii_chars(t: Seq<char>)
    requires
        forall|k: int| 0 <= k < encode_utf8(t).len() ==> encode_utf8(t)[k] < 0x80,
    ensures
        is_ascii_chars(t),
    decreases t.len(),
{
    if t.len() > 0 {
        let v = t[0] as u32;
        let e = encode_scalar(v);
        assert(encode_utf8(t) == e + encode_utf8(t.drop_first()));
        assert(encode_utf8(t)[0] == e[0]);
        lemma_leading_bytes_high(v);
        assert(has_width_1_encoding(v));
        assert forall|k: int| 0 <= k < encode_utf8(t.drop_first()).len() implies encode_utf8(t.drop_first())[k]
            < 0x80 by {
            assert(encode_utf8(t)[e.len() + k] == encode_utf8(t.drop_first())[k]);
        }
        lemma_ascii_bytes_ascii_chars(t.drop_first());
        assert forall|i: int| 0 <= i < t.len() implies '\0' <= #[trigger] t[i] <= '\u{7f}' by {
            if i > 0 {
                assert(t[i] == t.drop_first()[i - 1]);
            } else {
                char_u32_cast(t[0], v);
                assert(t[0] == (v as char));
            }
        }
    }
}

/// No stop among the first `m` pairs exactly when each of them spells a byte.
proof fn lemma_hex_stop_pairs(b: Seq<u8>, m: nat)
    ensures
        hex_stop(b, m) < 0 <==> forall|i: int| 0 <= i < m ==> (#[trigger] pair_value(b[2 * i], b[2 * i + 1])) is Some,
    decreases m,
{
    if m > 0 {
        lemma_hex_stop_pairs(b, (m - 1) as nat);
        if hex_stop(b, m) < 0 {
            assert forall|i: int| 0 <= i < m implies (#[trigger] pair_value(b[2 * i], b[2 * i + 1])) is Some by {
                if i < m - 1 {
                    assert(hex_stop(b, (m - 1) as nat) < 0);
                }
            }
        }
    }
}

/// A byte that is a hex digit is the ASCII code of a hex character.
proof fn lemma_hex_byte_char(c: char, byte: u8)
    requires
        '\0' <= c <= '\u{7f}',
        c as u8 == byte,
    ensures
        (hex_value(byte) is Some) <==> is_hex_char(c),
        hex_value(byte) matches Some(x) ==> hex_digit(x as int) == lower_hex_char(c),
{
    assert(c as u32 == byte);
}

/// Law: a digest is read exactly from 64 hex digits: the (trimmed) text
/// spells a digest if and only if it is 64 characters that are all hex
/// digits of either case, and the digest read renders back as that text
/// in lowercase. A non-hex character anywhere, or any other length, reads
/// as no digest, and from_hex then fails with a corruption error.
pub proof fn hex_digest_reads_exactly_hex_text(s: Seq<char>)
    ensures
        hex_digest(s) is Some <==> (trimmed(s).len() == 64 && forall|k: int|
            0 <= k < 64 ==> is_hex_char(#[trigger] trimmed(s)[k])),
        hex_digest(s) matches Some(d) ==> d.len() == 32 && hex_of_bytes(d) == trimmed(s).map_values(
            |c: char| lower_hex_char(c),
        ),
{
    let t = trimmed(s);
    let b = encode_utf8(t);
    lemma_hex_stop_pairs(b, 32);
    if t.len() == 64 && forall|k: int| 0 <= k < 64 ==> is_hex_char(#[trigger] t[k]) {
        assert(is_ascii_chars(t)) by {
            assert forall|i: int| 0 <= i < t.len() implies '\0' <= #[trigger] t[i] <= '\u{7f}' by {
                assert(is_hex_char(t[i]));
            }
        }
        is_ascii_chars_encode_utf8(t);
        assert forall|i: int| 0 <= i < 32 implies (#[trigger] pair_value(b[2 * i], b[2 * i + 1])) is Some by {
            assert(is_hex_char(t[2 * i]) && is_hex_char(t[2 * i + 1]));
            lemma_hex_byte_char(t[2 * i], b[2 * i]);
            lemma_hex_byte_char(t[2 * i + 1], b[2 * i + 1]);
        }
    }
    if hex_digest(s) is Some {
        assert(b.len() == 64);
        assert forall|k: int| 0 <= k < b.len() implies b[k] < 0x80 by {
            let i = k / 2;
            assert(pair_value(b[2 * i], b[2 * i + 1]) is Some);
            if k % 2 == 0 {
                assert(k == 2 * i);
            } else {
                assert(k == 2 * i + 1);
            }
        }
        lemma_ascii_bytes_ascii_chars(t);
        is_ascii_chars_encode_utf8(t);
        assert(t.len() == 64);
        let d = hex_bytes(b);
        lemma_hex_chars(d);
        let lower = t.map_values(|c: char| lower_hex_char(c));
        assert forall|k: int| 0 <= k < 64 implies is_hex_char(#[trigger] t[k]) && hex_of_bytes(d)[k] == lower[k] by {
            let i = k / 2;
            assert(pair_value(b[2 * i], b[2 * i + 1]) is Some);
            let x = hex_value(b[2 * i])->0;
            let y = hex_value(b[2 * i + 1])->0;
            assert(x < 16 && y < 16);
            assert(d[i] == (16 * x + y) as u8);
            assert((16 * x + y) / 16 == x && (16 * x + y) % 16 == y) by (nonlinear_arith)
                requires
                    x < 16,
                    y < 16,
            ;
            lemma_hex_byte_char(t[2 * i], b[2 * i]);
            lemma_hex_byte_char(t[2 * i + 1], b[2 * i + 1]);
            if k % 2 == 0 {
                assert(k == 2 * i);
            } else {
                assert(k == 2 * i + 1);
            }
        }
        assert(hex_of_bytes(d) =~= lower);
    }
}

/// Law: reading back the hex rendering of a 32-byte digest gives the
/// digest.
pub proof fn hex_round_trip(b: Seq<u8>)
    requires
        b.len() == 32,
    ensures
        hex_digest(hex_of_bytes(b)) == Some(b),
{
    let s = hex_of_bytes(b);
    lemma_hex_chars(b);
    assert forall|k: int| 0 <= k < s.len() implies (s[k] as u32) < 128 && !is_white_space(s[k]) && '\0'
        <= #[trigger] s[k] <= '\u{7f}' by {
        let i = k / 2;
        if k % 2 == 0 {
            assert(k == 2 * i);
            lemma_hex_digit_value((b[i] / 16) as int);
        } else {
            assert(k == 2 * i + 1);
            lemma_hex_digit_value((b[i] % 16) as int);
        }
    }
    lemma_trimmed_unchanged(s);
    assert(is_ascii_chars(s));
    is_ascii_chars_encode_utf8(s);
    let bytes = encode_utf8(s);
    assert forall|k: int| 0 <= k < bytes.len() implies #[trigger] bytes[k] < 0x80 by {
        assert(s[k] as u8 == bytes[k]);
    }
    assert forall|i: int| 0 <= i < b.len() implies pair_value(#[trigger] bytes[2 * i], bytes[2 * i + 1]) == Some(
        b[i],
    ) by {
        lemma_hex_digit_value((b[i] / 16) as int);
        lemma_hex_digit_value((b[i] % 16) as int);
        assert(bytes[2 * i] == s[2 * i] as u8);
        assert(bytes[2 * i + 1] == s[2 * i + 1] as u8);
    }
    lemma_hex_stop_none(bytes, b, 32);
    assert(hex_bytes(bytes) =~= b);
}

} // verus!
