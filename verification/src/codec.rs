//! The byte format used for cached payloads. Every value the store caches
//! is framed by this verified codec, and decoding an encoded value is
//! proved to give the value back exactly.
//!
//! Layout: integers are little-endian (`u32` in four bytes, `u64` in
//! eight); a character is its code point in four bytes; a string is its
//! character count as a `u64` followed by its characters; a relationship
//! kind is a one-byte tag. Composite records and lists concatenate their
//! parts, lists with a leading `u64` count.

use vstd::prelude::*;
use vstd::bytes::{
    lemma_auto_spec_u32_to_from_le_bytes, lemma_auto_spec_u64_to_from_le_bytes,
    spec_u32_from_le_bytes, spec_u32_to_le_bytes, spec_u64_from_le_bytes, spec_u64_to_le_bytes,
    u32_from_le_bytes, u32_to_le_bytes, u64_from_le_bytes, u64_to_le_bytes,
};
use vstd::slice::slice_subrange;
use vstd::string::StrSliceExecFns;

use crate::models::{rel_views, song_views, Relationship, RelationshipView, SongData, SongDataView};
use crate::taxonomy::RelationshipType;

verus! {

/// Relies on std's `char::from_u32`: it returns the character with the
/// given code point, and `None` exactly for surrogates and values beyond
/// the highest code point.
pub assume_specification[ char::from_u32 ](i: u32) -> (r: Option<char>)
    ensures
        (r is Some) == (i < 0xD800 || (0xE000 <= i && i <= 0x10FFFF)),
        r matches Some(c) ==> c == i as char && c as u32 == i,
;

/// Relies on std's `String::push`: it appends the given character to the
/// string.
pub assume_specification[ String::push ](s: &mut String, c: char)
    ensures
        final(s)@ == old(s)@.push(c),
;

/// A character sequence the format can frame: its length fits the count
/// field.
pub open spec fn valid_chars(s: Seq<char>) -> bool {
    s.len() <= u64::MAX
}

/// The encoding of a character sequence, four bytes per character.
pub open spec fn spec_enc_chars(s: Seq<char>) -> Seq<u8>
    decreases s.len(),
{
    if s.len() == 0 {
        Seq::empty()
    } else {
        spec_u32_to_le_bytes(s[0] as u32) + spec_enc_chars(s.drop_first())
    }
}

/// The encoding of a string: character count, then characters.
pub open spec fn spec_enc_string(s: Seq<char>) -> Seq<u8> {
    spec_u64_to_le_bytes(s.len() as u64) + spec_enc_chars(s)
}

/// Decode a `u32` at position `i`.
pub open spec fn spec_dec_u32(b: Seq<u8>, i: int) -> Option<(u32, int)> {
    if 0 <= i && i + 4 <= b.len() {
        Some((spec_u32_from_le_bytes(b.subrange(i, i + 4)), i + 4))
    } else {
        None
    }
}

/// Decode a `u64` at position `i`.
pub open spec fn spec_dec_u64(b: Seq<u8>, i: int) -> Option<(u64, int)> {
    if 0 <= i && i + 8 <= b.len() {
        Some((spec_u64_from_le_bytes(b.subrange(i, i + 8)), i + 8))
    } else {
        None
    }
}

/// Whether a `u32` is the code point of some character: not a surrogate
/// and not beyond the highest code point.
pub open spec fn valid_code_point(x: u32) -> bool {
    x < 0xD800 || (0xE000 <= x && x <= 0x10FFFF)
}

/// Decode one character at position `i`: a `u32` that is the code point of
/// a character.
pub open spec fn spec_dec_char(b: Seq<u8>, i: int) -> Option<(char, int)> {
    match spec_dec_u32(b, i) {
        Some((x, j)) => if valid_code_point(x) {
            Some((x as char, j))
        } else {
            None
        },
        None => None,
    }
}

/// Decode `n` characters starting at position `i`.
pub open spec fn spec_dec_chars(b: Seq<u8>, i: int, n: nat) -> Option<(Seq<char>, int)>
    decreases n,
{
    if n == 0 {
        Some((Seq::empty(), i))
    } else {
        match spec_dec_char(b, i) {
            Some((c, j)) => match spec_dec_chars(b, j, (n - 1) as nat) {
                Some((cs, k)) => Some((seq![c] + cs, k)),
                None => None,
            },
            None => None,
        }
    }
}

/// Decode a string at position `i`: its count, then its characters.
pub open spec fn spec_dec_string(b: Seq<u8>, i: int) -> Option<(Seq<char>, int)> {
    match spec_dec_u64(b, i) {
        Some((n, j)) => spec_dec_chars(b, j, n as nat),
        None => None,
    }
}

/// The four little-endian bytes of a `u32` decode back to it.
proof fn lemma_u32_bytes(x: u32)
    ensures
        spec_u32_to_le_bytes(x).len() == 4,
        spec_u32_from_le_bytes(spec_u32_to_le_bytes(x)) == x,
{
    lemma_auto_spec_u32_to_from_le_bytes();
    assert(spec_u32_to_le_bytes(x).len() == 4);
}

/// The eight little-endian bytes of a `u64` decode back to it.
proof fn lemma_u64_bytes(x: u64)
    ensures
        spec_u64_to_le_bytes(x).len() == 8,
        spec_u64_from_le_bytes(spec_u64_to_le_bytes(x)) == x,
{
    lemma_auto_spec_u64_to_from_le_bytes();
    assert(spec_u64_to_le_bytes(x).len() == 8);
}

/// The character encoding takes exactly four bytes per character.
pub proof fn lemma_enc_chars_len(s: Seq<char>)
    ensures
        spec_enc_chars(s).len() == 4 * s.len(),
    decreases s.len(),
{
    if s.len() > 0 {
        lemma_u32_bytes(s[0] as u32);
        lemma_enc_chars_len(s.drop_first());
    }
}

/// Splitting a subrange known to be a concatenation gives the two parts.
pub proof fn lemma_subrange_concat(b: Seq<u8>, i: int, x: Seq<u8>, y: Seq<u8>)
    requires
        0 <= i,
        i + x.len() + y.len() <= b.len(),
        b.subrange(i, i + x.len() + y.len()) == x + y,
    ensures
        b.subrange(i, i + x.len()) == x,
        b.subrange(i + x.len(), i + x.len() + y.len()) == y,
{
    let w = b.subrange(i, i + x.len() + y.len());
    assert forall|k: int| 0 <= k < x.len() implies b.subrange(i, i + x.len() as int)[k] == x[k] by {
        assert(w[k] == (x + y)[k]);
    }
    assert(b.subrange(i, i + x.len()) =~= x);
    assert forall|k: int|
        0 <= k < y.len() implies b.subrange(i + x.len(), i + x.len() + y.len() as int)[k]
        == y[k] by {
        assert(w[x.len() + k] == (x + y)[x.len() + k]);
    }
    assert(b.subrange(i + x.len(), i + x.len() + y.len()) =~= y);
}

/// A `u32` encoded at position `i` decodes back at position `i`.
pub proof fn lemma_dec_u32_at(b: Seq<u8>, i: int, x: u32)
    requires
        0 <= i,
        i + 4 <= b.len(),
        b.subrange(i, i + 4) == spec_u32_to_le_bytes(x),
    ensures
        spec_dec_u32(b, i) == Some((x, i + 4)),
{
    lemma_u32_bytes(x);
}

/// A `u64` encoded at position `i` decodes back at position `i`.
pub proof fn lemma_dec_u64_at(b: Seq<u8>, i: int, x: u64)
    requires
        0 <= i,
        i + 8 <= b.len(),
        b.subrange(i, i + 8) == spec_u64_to_le_bytes(x),
    ensures
        spec_dec_u64(b, i) == Some((x, i + 8)),
{
    lemma_u64_bytes(x);
}

/// A character encoded at position `i` decodes back at position `i`.
pub proof fn lemma_dec_char_at(b: Seq<u8>, i: int, c: char)
    requires
        0 <= i,
        i + 4 <= b.len(),
        b.subrange(i, i + 4) == spec_u32_to_le_bytes(c as u32),
    ensures
        spec_dec_char(b, i) == Some((c, i + 4)),
{
    lemma_dec_u32_at(b, i, c as u32);
    assert(valid_code_point(c as u32));
    assert((c as u32) as char == c);
}

/// A character sequence encoded at position `i` decodes back at position
/// `i`.
pub proof fn lemma_dec_chars_at(b: Seq<u8>, i: int, s: Seq<char>)
    requires
        0 <= i,
        i + 4 * s.len() <= b.len(),
        b.subrange(i, i + 4 * s.len()) == spec_enc_chars(s),
    ensures
        spec_dec_chars(b, i, s.len()) == Some((s, i + 4 * s.len())),
    decreases s.len(),
{
    if s.len() == 0 {
    } else {
        let hd = spec_u32_to_le_bytes(s[0] as u32);
        let tl = spec_enc_chars(s.drop_first());
        lemma_u32_bytes(s[0] as u32);
        lemma_enc_chars_len(s.drop_first());
        lemma_subrange_concat(b, i, hd, tl);
        lemma_dec_char_at(b, i, s[0]);
        lemma_dec_chars_at(b, i + 4, s.drop_first());
        assert(seq![s[0]] + s.drop_first() =~= s);
    }
}

/// A string encoded at position `i` decodes back at position `i`.
pub proof fn lemma_dec_string_at(b: Seq<u8>, i: int, s: Seq<char>)
    requires
        valid_chars(s),
        0 <= i,
        i + 8 + 4 * s.len() <= b.len(),
        b.subrange(i, i + 8 + 4 * s.len()) == spec_enc_string(s),
    ensures
        spec_dec_string(b, i) == Some((s, i + 8 + 4 * s.len())),
{
    let cnt = spec_u64_to_le_bytes(s.len() as u64);
    let chars = spec_enc_chars(s);
    lemma_u64_bytes(s.len() as u64);
    lemma_enc_chars_len(s);
    lemma_subrange_concat(b, i, cnt, chars);
    lemma_dec_u64_at(b, i, s.len() as u64);
    lemma_dec_chars_at(b, i + 8, s);
}

/// Append the little-endian bytes of a `u32`.
pub fn push_u32(out: &mut Vec<u8>, x: u32)
    ensures
        final(out)@ == old(out)@ + spec_u32_to_le_bytes(x),
{
    let mut t = u32_to_le_bytes(x);
    out.append(&mut t);
}

/// Append the little-endian bytes of a `u64`.
pub fn push_u64(out: &mut Vec<u8>, x: u64)
    ensures
        final(out)@ == old(out)@ + spec_u64_to_le_bytes(x),
{
    let mut t = u64_to_le_bytes(x);
    out.append(&mut t);
}

/// The encoding of a string extended by one character on the right.
proof fn lemma_enc_chars_snoc(s: Seq<char>, c: char)
    ensures
        spec_enc_chars(s.push(c)) == spec_enc_chars(s) + spec_u32_to_le_bytes(c as u32),
    decreases s.len(),
{
    if s.len() == 0 {
        assert(s.push(c).len() == 1);
        assert(s.push(c)[0] == c);
        assert(s.push(c).drop_first() =~= s);
        assert(spec_enc_chars(s) =~= Seq::<u8>::empty());
        assert(spec_enc_chars(s.push(c)) == spec_u32_to_le_bytes(s.push(c)[0] as u32)
            + spec_enc_chars(s.push(c).drop_first()));
        assert(spec_u32_to_le_bytes(c as u32) + Seq::<u8>::empty() =~= spec_u32_to_le_bytes(
            c as u32,
        ));
        assert(Seq::<u8>::empty() + spec_u32_to_le_bytes(c as u32) =~= spec_u32_to_le_bytes(
            c as u32,
        ));
    } else {
        assert(s.push(c).drop_first() =~= s.drop_first().push(c));
        assert(s.push(c)[0] == s[0]);
        lemma_enc_chars_snoc(s.drop_first(), c);
        assert(spec_enc_chars(s.push(c)) =~= spec_enc_chars(s) + spec_u32_to_le_bytes(c as u32));
    }
}

/// Append the encoding of a string's characters.
pub fn push_chars(out: &mut Vec<u8>, s: &str)
    ensures
        final(out)@ == old(out)@ + spec_enc_chars(s@),
{
    let n = s.unicode_len();
    let mut i: usize = 0;
    while i < n
        invariant
            n == s@.len(),
            i <= n,
            out@ == old(out)@ + spec_enc_chars(s@.subrange(0, i as int)),
        decreases n - i,
    {
        let c = s.get_char(i);
        push_u32(out, c as u32);
        proof {
            assert(s@.subrange(0, i + 1) =~= s@.subrange(0, i as int).push(s@[i as int]));
            lemma_enc_chars_snoc(s@.subrange(0, i as int), s@[i as int]);
            assert(out@ =~= old(out)@ + spec_enc_chars(s@.subrange(0, i + 1)));
        }
        i = i + 1;
    }
    proof {
        assert(s@.subrange(0, n as int) =~= s@);
    }
}

/// Append the encoding of a string: its character count, then its
/// characters.
pub fn push_string(out: &mut Vec<u8>, s: &str)
    ensures
        final(out)@ == old(out)@ + spec_enc_string(s@),
        valid_chars(s@),
{
    let n = s.unicode_len();
    push_u64(out, n as u64);
    push_chars(out, s);
    proof {
        assert(out@ =~= old(out)@ + spec_enc_string(s@));
    }
}

/// Read a `u32` at `pos`.
pub fn read_u32(b: &Vec<u8>, pos: usize) -> (r: Option<(u32, usize)>)
    ensures
        match r {
            Some((x, j)) => spec_dec_u32(b@, pos as int) == Some((x, j as int)),
            None => spec_dec_u32(b@, pos as int) is None,
        },
{
    if pos <= b.len() && b.len() - pos >= 4 {
        let s = slice_subrange(b.as_slice(), pos, pos + 4);
        Some((u32_from_le_bytes(s), pos + 4))
    } else {
        None
    }
}

/// Read a `u64` at `pos`.
pub fn read_u64(b: &Vec<u8>, pos: usize) -> (r: Option<(u64, usize)>)
    ensures
        match r {
            Some((x, j)) => spec_dec_u64(b@, pos as int) == Some((x, j as int)),
            None => spec_dec_u64(b@, pos as int) is None,
        },
{
    if pos <= b.len() && b.len() - pos >= 8 {
        let s = slice_subrange(b.as_slice(), pos, pos + 8);
        Some((u64_from_le_bytes(s), pos + 8))
    } else {
        None
    }
}

/// Read one character at `pos`.
pub fn read_char(b: &Vec<u8>, pos: usize) -> (r: Option<(char, usize)>)
    ensures
        match r {
            Some((c, j)) => spec_dec_char(b@, pos as int) == Some((c, j as int)),
            None => spec_dec_char(b@, pos as int) is None,
        },
{
    match read_u32(b, pos) {
        Some((x, j)) => match char::from_u32(x) {
            Some(c) => {
                proof {
                    assert(valid_code_point(x));
                    assert(c == x as char);
                }
                Some((c, j))
            },
            None => None,
        },
        None => None,
    }
}

/// Read `n` characters at `pos`, appending them to `acc`.
pub fn read_chars(b: &Vec<u8>, pos: usize, n: u64, acc: &mut String) -> (r: Option<usize>)
    requires
        pos <= b@.len(),
    ensures
        match spec_dec_chars(b@, pos as int, n as nat) {
            Some((cs, e)) => r == Some(e as usize) && final(acc)@ == old(acc)@ + cs && 0 <= e
                && e <= b@.len(),
            None => r is None,
        },
    decreases n,
{
    if n == 0 {
        proof {
            assert(old(acc)@ + Seq::<char>::empty() =~= old(acc)@);
        }
        return Some(pos);
    }
    match read_char(b, pos) {
        Some((c, j)) => {
            acc.push(c);
            let r = read_chars(b, j, n - 1, acc);
            proof {
                let dc = spec_dec_chars(b@, j as int, (n - 1) as nat);
                if dc is Some {
                    let cs2 = dc->Some_0.0;
                    assert(old(acc)@.push(c) + cs2 =~= old(acc)@ + (seq![c] + cs2));
                }
            }
            r
        },
        None => None,
    }
}

/// Read a string at `pos`: its character count, then its characters.
pub fn read_string(b: &Vec<u8>, pos: usize) -> (r: Option<(String, usize)>)
    ensures
        match r {
            Some((s, j)) => spec_dec_string(b@, pos as int) == Some((s@, j as int)) && j
                <= b@.len(),
            None => spec_dec_string(b@, pos as int) is None,
        },
{
    let _len: usize = b.len();
    match read_u64(b, pos) {
        Some((n, j)) => {
            let mut acc = String::new();
            match read_chars(b, j, n, &mut acc) {
                Some(e) => {
                    proof {
                        let dcs = spec_dec_chars(b@, j as int, n as nat);
                        let cs = dcs->Some_0.0;
                        let e0 = dcs->Some_0.1;
                        assert(Seq::<char>::empty() + cs =~= cs);
                        assert(0 <= e0 && e0 <= b@.len());
                        assert(e as int == e0);
                    }
                    Some((acc, e))
                },
                None => None,
            }
        },
        None => None,
    }
}

/// A song record the format can frame.
pub open spec fn valid_song(v: SongDataView) -> bool {
    valid_chars(v.title) && valid_chars(v.artist_name)
}

/// The encoding of a song record: id, title, artist name.
pub open spec fn spec_enc_song(v: SongDataView) -> Seq<u8> {
    spec_u32_to_le_bytes(v.id) + spec_enc_string(v.title) + spec_enc_string(v.artist_name)
}

/// Decode a song record at position `i`.
pub open spec fn spec_dec_song_at(b: Seq<u8>, i: int) -> Option<(SongDataView, int)> {
    match spec_dec_u32(b, i) {
        Some((id, j)) => match spec_dec_string(b, j) {
            Some((title, k)) => match spec_dec_string(b, k) {
                Some((artist_name, m)) => Some(
                    (SongDataView { id, title, artist_name }, m),
                ),
                None => None,
            },
            None => None,
        },
        None => None,
    }
}

/// Decode a whole payload as one song record; the payload must hold exactly
/// that record.
pub open spec fn spec_dec_song(b: Seq<u8>) -> Option<SongDataView> {
    match spec_dec_song_at(b, 0) {
        Some((v, e)) => if e == b.len() {
            Some(v)
        } else {
            None
        },
        None => None,
    }
}

/// A song record encoded at position `i` decodes back at position `i`.
pub proof fn lemma_dec_song_at(b: Seq<u8>, i: int, v: SongDataView)
    requires
        valid_song(v),
        0 <= i,
        i + spec_enc_song(v).len() <= b.len(),
        b.subrange(i, i + spec_enc_song(v).len()) == spec_enc_song(v),
    ensures
        spec_dec_song_at(b, i) == Some((v, i + spec_enc_song(v).len())),
{
    let idb = spec_u32_to_le_bytes(v.id);
    let tb = spec_enc_string(v.title);
    let ab = spec_enc_string(v.artist_name);
    lemma_u32_bytes(v.id);
    lemma_u64_bytes(v.title.len() as u64);
    lemma_u64_bytes(v.artist_name.len() as u64);
    lemma_enc_chars_len(v.title);
    lemma_enc_chars_len(v.artist_name);
    assert(spec_enc_song(v) == (idb + tb) + ab);
    lemma_subrange_concat(b, i, idb + tb, ab);
    lemma_subrange_concat(b, i, idb, tb);
    lemma_dec_u32_at(b, i, v.id);
    lemma_dec_string_at(b, i + 4, v.title);
    lemma_dec_string_at(b, i + 4 + 8 + 4 * v.title.len(), v.artist_name);
}

/// Deserializing a serialized song record gives the record back exactly.
pub proof fn lemma_song_round_trip(v: SongDataView)
    requires
        valid_song(v),
    ensures
        spec_dec_song(spec_enc_song(v)) == Some(v),
{
    let b = spec_enc_song(v);
    assert(b.subrange(0, b.len() as int) =~= b);
    lemma_dec_song_at(b, 0, v);
}

/// Serialize a song record.
pub fn encode_song(s: &SongData) -> (r: Vec<u8>)
    ensures
        r@ == spec_enc_song(s@),
        valid_song(s@),
{
    let mut out: Vec<u8> = Vec::new();
    push_u32(&mut out, s.id);
    push_string(&mut out, s.title.as_str());
    push_string(&mut out, s.artist_name.as_str());
    proof {
        assert(out@ =~= spec_enc_song(s@));
    }
    out
}

/// Read a song record at `pos`.
pub fn read_song_at(b: &Vec<u8>, pos: usize) -> (r: Option<(SongData, usize)>)
    ensures
        match r {
            Some((sd, j)) => spec_dec_song_at(b@, pos as int) == Some((sd@, j as int)) && j
                <= b@.len(),
            None => spec_dec_song_at(b@, pos as int) is None,
        },
{
    match read_u32(b, pos) {
        Some((id, j)) => match read_string(b, j) {
            Some((title, k)) => match read_string(b, k) {
                Some((artist_name, m)) => Some((SongData::new(id, title, artist_name), m)),
                None => None,
            },
            None => None,
        },
        None => None,
    }
}

/// Deserialize a payload holding exactly one song record.
pub fn decode_song(b: &Vec<u8>) -> (r: Option<SongData>)
    ensures
        match r {
            Some(sd) => spec_dec_song(b@) == Some(sd@),
            None => spec_dec_song(b@) is None,
        },
{
    match read_song_at(b, 0) {
        Some((sd, j)) => if j == b.len() {
            Some(sd)
        } else {
            None
        },
        None => None,
    }
}

/// The one-byte tag of a relationship kind in the cache format.
pub open spec fn spec_tag(t: RelationshipType) -> u8 {
    match t {
        RelationshipType::Samples => 0,
        RelationshipType::SampledIn => 1,
        RelationshipType::Interpolates => 2,
        RelationshipType::InterpolatedBy => 3,
        RelationshipType::CoverOf => 4,
        RelationshipType::CoveredBy => 5,
        RelationshipType::RemixOf => 6,
        RelationshipType::RemixedBy => 7,
        RelationshipType::LiveVersionOf => 8,
        RelationshipType::PerformedLiveAs => 9,
        RelationshipType::TranslationOf => 10,
        RelationshipType::Translations => 11,
        RelationshipType::Unknown => 12,
    }
}

/// The relationship kind a tag byte stands for, if any.
pub open spec fn spec_from_tag(x: u8) -> Option<RelationshipType> {
    if x == 0 {
        Some(RelationshipType::Samples)
    } else if x == 1 {
        Some(RelationshipType::SampledIn)
    } else if x == 2 {
        Some(RelationshipType::Interpolates)
    } else if x == 3 {
        Some(RelationshipType::InterpolatedBy)
    } else if x == 4 {
        Some(RelationshipType::CoverOf)
    } else if x == 5 {
        Some(RelationshipType::CoveredBy)
    } else if x == 6 {
        Some(RelationshipType::RemixOf)
    } else if x == 7 {
        Some(RelationshipType::RemixedBy)
    } else if x == 8 {
        Some(RelationshipType::LiveVersionOf)
    } else if x == 9 {
        Some(RelationshipType::PerformedLiveAs)
    } else if x == 10 {
        Some(RelationshipType::TranslationOf)
    } else if x == 11 {
        Some(RelationshipType::Translations)
    } else if x == 12 {
        Some(RelationshipType::Unknown)
    } else {
        None
    }
}

/// A kind's tag maps back to the kind.
pub proof fn lemma_tag_round_trip(t: RelationshipType)
    ensures
        spec_from_tag(spec_tag(t)) == Some(t),
{
}

/// The tag byte of a relationship kind.
fn tag_byte(t: RelationshipType) -> (r: u8)
    ensures
        r == spec_tag(t),
{
    match t {
        RelationshipType::Samples => 0,
        RelationshipType::SampledIn => 1,
        RelationshipType::Interpolates => 2,
        RelationshipType::InterpolatedBy => 3,
        RelationshipType::CoverOf => 4,
        RelationshipType::CoveredBy => 5,
        RelationshipType::RemixOf => 6,
        RelationshipType::RemixedBy => 7,
        RelationshipType::LiveVersionOf => 8,
        RelationshipType::PerformedLiveAs => 9,
        RelationshipType::TranslationOf => 10,
        RelationshipType::Translations => 11,
        RelationshipType::Unknown => 12,
    }
}

/// Parse a tag byte.
fn tag_parse(x: u8) -> (r: Option<RelationshipType>)
    ensures
        r == spec_from_tag(x),
{
    if x == 0 {
        Some(RelationshipType::Samples)
    } else if x == 1 {
        Some(RelationshipType::SampledIn)
    } else if x == 2 {
        Some(RelationshipType::Interpolates)
    } else if x == 3 {
        Some(RelationshipType::InterpolatedBy)
    } else if x == 4 {
        Some(RelationshipType::CoverOf)
    } else if x == 5 {
        Some(RelationshipType::CoveredBy)
    } else if x == 6 {
        Some(RelationshipType::RemixOf)
    } else if x == 7 {
        Some(RelationshipType::RemixedBy)
    } else if x == 8 {
        Some(RelationshipType::LiveVersionOf)
    } else if x == 9 {
        Some(RelationshipType::PerformedLiveAs)
    } else if x == 10 {
        Some(RelationshipType::TranslationOf)
    } else if x == 11 {
        Some(RelationshipType::Translations)
    } else if x == 12 {
        Some(RelationshipType::Unknown)
    } else {
        None
    }
}

/// A relationship the format can frame.
pub open spec fn valid_rel(r: RelationshipView) -> bool {
    valid_song(r.song)
}

/// The encoding of one relationship: tag byte, then the related song.
pub open spec fn spec_enc_rel(r: RelationshipView) -> Seq<u8> {
    seq![spec_tag(r.relationship_type)] + spec_enc_song(r.song)
}

/// The encoding of a run of relationships, one after the other.
pub open spec fn spec_enc_rels(rs: Seq<RelationshipView>) -> Seq<u8>
    decreases rs.len(),
{
    if rs.len() == 0 {
        Seq::empty()
    } else {
        spec_enc_rel(rs[0]) + spec_enc_rels(rs.drop_first())
    }
}

/// A relationship list the format can frame.
pub open spec fn valid_rels(rs: Seq<RelationshipView>) -> bool {
    rs.len() <= u64::MAX && forall|k: int| 0 <= k < rs.len() ==> valid_rel(#[trigger] rs[k])
}

/// The encoding of a relationship list: count, then the relationships.
pub open spec fn spec_enc_rel_list(rs: Seq<RelationshipView>) -> Seq<u8> {
    spec_u64_to_le_bytes(rs.len() as u64) + spec_enc_rels(rs)
}

/// Decode one relationship at position `i`.
pub open spec fn spec_dec_rel_at(b: Seq<u8>, i: int) -> Option<(RelationshipView, int)> {
    if 0 <= i && i < b.len() {
        match spec_from_tag(b[i]) {
            Some(t) => match spec_dec_song_at(b, i + 1) {
                Some((v, j)) => Some((RelationshipView { relationship_type: t, song: v }, j)),
                None => None,
            },
            None => None,
        }
    } else {
        None
    }
}

/// Decode `n` relationships starting at position `i`.
pub open spec fn spec_dec_rels(b: Seq<u8>, i: int, n: nat) -> Option<(Seq<RelationshipView>, int)>
    decreases n,
{
    if n == 0 {
        Some((Seq::empty(), i))
    } else {
        match spec_dec_rel_at(b, i) {
            Some((r, j)) => match spec_dec_rels(b, j, (n - 1) as nat) {
                Some((rs, k)) => Some((seq![r] + rs, k)),
                None => None,
            },
            None => None,
        }
    }
}

/// Decode a whole payload as one relationship list; the payload must hold
/// exactly that list.
pub open spec fn spec_dec_rel_list(b: Seq<u8>) -> Option<Seq<RelationshipView>> {
    match spec_dec_u64(b, 0) {
        Some((n, j)) => match spec_dec_rels(b, j, n as nat) {
            Some((rs, e)) => if e == b.len() {
                Some(rs)
            } else {
                None
            },
            None => None,
        },
        None => None,
    }
}

/// A relationship encoded at position `i` decodes back at position `i`.
pub proof fn lemma_dec_rel_at(b: Seq<u8>, i: int, r: RelationshipView)
    requires
        valid_rel(r),
        0 <= i,
        i + spec_enc_rel(r).len() <= b.len(),
        b.subrange(i, i + spec_enc_rel(r).len()) == spec_enc_rel(r),
    ensures
        spec_dec_rel_at(b, i) == Some((r, i + spec_enc_rel(r).len())),
{
    let tag = seq![spec_tag(r.relationship_type)];
    let sb = spec_enc_song(r.song);
    lemma_subrange_concat(b, i, tag, sb);
    assert(b.subrange(i, i + 1)[0] == b[i]);
    assert(b[i] == spec_tag(r.relationship_type));
    lemma_tag_round_trip(r.relationship_type);
    lemma_dec_song_at(b, i + 1, r.song);
}

/// A run of relationships encoded at position `i` decodes back at position
/// `i`.
pub proof fn lemma_dec_rels_at(b: Seq<u8>, i: int, rs: Seq<RelationshipView>)
    requires
        valid_rels(rs),
        0 <= i,
        i + spec_enc_rels(rs).len() <= b.len(),
        b.subrange(i, i + spec_enc_rels(rs).len()) == spec_enc_rels(rs),
    ensures
        spec_dec_rels(b, i, rs.len()) == Some((rs, i + spec_enc_rels(rs).len())),
    decreases rs.len(),
{
    if rs.len() == 0 {
    } else {
        let hd = spec_enc_rel(rs[0]);
        let tl = spec_enc_rels(rs.drop_first());
        lemma_subrange_concat(b, i, hd, tl);
        lemma_dec_rel_at(b, i, rs[0]);
        assert(valid_rels(rs.drop_first()));
        lemma_dec_rels_at(b, i + hd.len(), rs.drop_first());
        assert(seq![rs[0]] + rs.drop_first() =~= rs);
    }
}

/// Deserializing a serialized relationship list gives the list back
/// exactly.
pub proof fn lemma_relationships_round_trip(rs: Seq<RelationshipView>)
    requires
        valid_rels(rs),
    ensures
        spec_dec_rel_list(spec_enc_rel_list(rs)) == Some(rs),
{
    let b = spec_enc_rel_list(rs);
    let cnt = spec_u64_to_le_bytes(rs.len() as u64);
    lemma_u64_bytes(rs.len() as u64);
    assert(b.subrange(0, b.len() as int) =~= b);
    lemma_subrange_concat(b, 0, cnt, spec_enc_rels(rs));
    lemma_dec_u64_at(b, 0, rs.len() as u64);
    lemma_dec_rels_at(b, 8, rs);
}

/// Serialize a relationship list.
pub fn encode_relationships(v: &Vec<Relationship>) -> (r: Vec<u8>)
    ensures
        r@ == spec_enc_rel_list(rel_views(v@)),
        valid_rels(rel_views(v@)),
{
    let mut out: Vec<u8> = Vec::new();
    push_u64(&mut out, v.len() as u64);
    let mut i: usize = 0;
    while i < v.len()
        invariant
            i <= v@.len(),
            out@ == spec_u64_to_le_bytes(v@.len() as u64) + spec_enc_rels(
                rel_views(v@).subrange(0, i as int),
            ),
            forall|k: int| 0 <= k < i ==> valid_rel(#[trigger] rel_views(v@)[k]),
        decreases v@.len() - i,
    {
        let rel = &v[i];
        out.push(tag_byte(rel.relationship_type));
        let ghost before = out@;
        push_u32(&mut out, rel.song.id);
        push_string(&mut out, rel.song.title.as_str());
        push_string(&mut out, rel.song.artist_name.as_str());
        proof {
            let rv = rel_views(v@);
            assert(rv[i as int] == v@[i as int]@);
            assert(before + spec_enc_song(rel.song@) =~= out@);
            assert(out@ =~= spec_u64_to_le_bytes(v@.len() as u64) + (spec_enc_rels(
                rv.subrange(0, i as int),
            ) + spec_enc_rel(rv[i as int])));
            lemma_enc_rels_snoc(rv.subrange(0, i as int), rv[i as int]);
            assert(rv.subrange(0, i as int).push(rv[i as int]) =~= rv.subrange(0, i + 1));
            assert(out@ =~= spec_u64_to_le_bytes(v@.len() as u64) + spec_enc_rels(
                rv.subrange(0, i + 1),
            ));
        }
        i = i + 1;
    }
    proof {
        assert(rel_views(v@).subrange(0, v@.len() as int) =~= rel_views(v@));
    }
    out
}

/// The encoding of a run of relationships extended by one on the right.
proof fn lemma_enc_rels_snoc(rs: Seq<RelationshipView>, r: RelationshipView)
    ensures
        spec_enc_rels(rs.push(r)) == spec_enc_rels(rs) + spec_enc_rel(r),
    decreases rs.len(),
{
    if rs.len() == 0 {
        assert(rs.push(r).len() == 1);
        assert(rs.push(r)[0] == r);
        assert(rs.push(r).drop_first() =~= rs);
        assert(spec_enc_rels(rs) =~= Seq::<u8>::empty());
        assert(spec_enc_rels(rs.push(r)) == spec_enc_rel(rs.push(r)[0]) + spec_enc_rels(
            rs.push(r).drop_first(),
        ));
        assert(spec_enc_rel(r) + Seq::<u8>::empty() =~= spec_enc_rel(r));
        assert(Seq::<u8>::empty() + spec_enc_rel(r) =~= spec_enc_rel(r));
    } else {
        assert(rs.push(r).drop_first() =~= rs.drop_first().push(r));
        assert(rs.push(r)[0] == rs[0]);
        lemma_enc_rels_snoc(rs.drop_first(), r);
        assert(spec_enc_rels(rs.push(r)) =~= spec_enc_rels(rs) + spec_enc_rel(r));
    }
}

/// Read `n` relationships at `pos`, appending them to `acc`.
fn read_rels(b: &Vec<u8>, pos: usize, n: u64, acc: &mut Vec<Relationship>) -> (r: Option<usize>)
    requires
        pos <= b@.len(),
    ensures
        match spec_dec_rels(b@, pos as int, n as nat) {
            Some((rs, e)) => r == Some(e as usize) && rel_views(final(acc)@) == rel_views(
                old(acc)@,
            ) + rs && 0 <= e && e <= b@.len(),
            None => r is None,
        },
    decreases n,
{
    if n == 0 {
        proof {
            assert(rel_views(acc@) + Seq::<RelationshipView>::empty() =~= rel_views(acc@));
        }
        return Some(pos);
    }
    if pos >= b.len() {
        return None;
    }
    let tag = b[pos];
    match tag_parse(tag) {
        Some(t) => match read_song_at(b, pos + 1) {
            Some((sd, j)) => {
                proof {
                    assert(j as int <= b@.len());
                }
                let rel = Relationship::new(t, sd);
                let ghost relg = rel;
                acc.push(rel);
                let r = read_rels(b, j, n - 1, acc);
                proof {
                    let drs = spec_dec_rels(b@, j as int, (n - 1) as nat);
                    if drs is Some {
                        let rs2 = drs->Some_0.0;
                        let rv0 = relg@;
                        assert(rel_views(old(acc)@.push(relg)) =~= rel_views(old(acc)@).push(rv0));
                        assert(rel_views(old(acc)@).push(rv0) + rs2 =~= rel_views(old(acc)@) + (
                        seq![rv0] + rs2));
                    }
                }
                r
            },
            None => None,
        },
        None => None,
    }
}

/// Deserialize a payload holding exactly one relationship list.
pub fn decode_relationships(b: &Vec<u8>) -> (r: Option<Vec<Relationship>>)
    ensures
        match r {
            Some(v) => spec_dec_rel_list(b@) == Some(rel_views(v@)),
            None => spec_dec_rel_list(b@) is None,
        },
{
    let _len: usize = b.len();
    match read_u64(b, 0) {
        Some((n, j)) => {
            let mut acc: Vec<Relationship> = Vec::new();
            match read_rels(b, j, n, &mut acc) {
                Some(e) => {
                    if e == b.len() {
                        proof {
                            let drs = spec_dec_rels(b@, j as int, n as nat);
                            let rs = drs->Some_0.0;
                            assert(rel_views(Seq::<Relationship>::empty()) =~= Seq::<
                                RelationshipView,
                            >::empty());
                            assert(Seq::<RelationshipView>::empty() + rs =~= rs);
                        }
                        Some(acc)
                    } else {
                        None
                    }
                },
                None => None,
            }
        },
        None => None,
    }
}

/// A run of song records, one after the other.
pub open spec fn spec_enc_songs(vs: Seq<SongDataView>) -> Seq<u8>
    decreases vs.len(),
{
    if vs.len() == 0 {
        Seq::empty()
    } else {
        spec_enc_song(vs[0]) + spec_enc_songs(vs.drop_first())
    }
}

/// A song list the format can frame.
pub open spec fn valid_songs(vs: Seq<SongDataView>) -> bool {
    vs.len() <= u64::MAX && forall|k: int| 0 <= k < vs.len() ==> valid_song(#[trigger] vs[k])
}

/// The encoding of a song list: count, then the songs.
pub open spec fn spec_enc_song_list(vs: Seq<SongDataView>) -> Seq<u8> {
    spec_u64_to_le_bytes(vs.len() as u64) + spec_enc_songs(vs)
}

/// Decode `n` song records starting at position `i`.
pub open spec fn spec_dec_songs(b: Seq<u8>, i: int, n: nat) -> Option<(Seq<SongDataView>, int)>
    decreases n,
{
    if n == 0 {
        Some((Seq::empty(), i))
    } else {
        match spec_dec_song_at(b, i) {
            Some((v, j)) => match spec_dec_songs(b, j, (n - 1) as nat) {
                Some((vs, k)) => Some((seq![v] + vs, k)),
                None => None,
            },
            None => None,
        }
    }
}

/// Decode a whole payload as one song list; the payload must hold exactly
/// that list.
pub open spec fn spec_dec_song_list(b: Seq<u8>) -> Option<Seq<SongDataView>> {
    match spec_dec_u64(b, 0) {
        Some((n, j)) => match spec_dec_songs(b, j, n as nat) {
            Some((vs, e)) => if e == b.len() {
                Some(vs)
            } else {
                None
            },
            None => None,
        },
        None => None,
    }
}

/// A run of song records encoded at position `i` decodes back at position
/// `i`.
pub proof fn lemma_dec_songs_at(b: Seq<u8>, i: int, vs: Seq<SongDataView>)
    requires
        valid_songs(vs),
        0 <= i,
        i + spec_enc_songs(vs).len() <= b.len(),
        b.subrange(i, i + spec_enc_songs(vs).len()) == spec_enc_songs(vs),
    ensures
        spec_dec_songs(b, i, vs.len()) == Some((vs, i + spec_enc_songs(vs).len())),
    decreases vs.len(),
{
    if vs.len() == 0 {
    } else {
        let hd = spec_enc_song(vs[0]);
        let tl = spec_enc_songs(vs.drop_first());
        lemma_subrange_concat(b, i, hd, tl);
        lemma_dec_song_at(b, i, vs[0]);
        assert(valid_songs(vs.drop_first()));
        lemma_dec_songs_at(b, i + hd.len(), vs.drop_first());
        assert(seq![vs[0]] + vs.drop_first() =~= vs);
    }
}

/// Deserializing a serialized song list gives the list back exactly.
pub proof fn lemma_songs_round_trip(vs: Seq<SongDataView>)
    requires
        valid_songs(vs),
    ensures
        spec_dec_song_list(spec_enc_song_list(vs)) == Some(vs),
{
    let b = spec_enc_song_list(vs);
    let cnt = spec_u64_to_le_bytes(vs.len() as u64);
    lemma_u64_bytes(vs.len() as u64);
    assert(b.subrange(0, b.len() as int) =~= b);
    lemma_subrange_concat(b, 0, cnt, spec_enc_songs(vs));
    lemma_dec_u64_at(b, 0, vs.len() as u64);
    lemma_dec_songs_at(b, 8, vs);
}

/// The encoding of a run of song records extended by one on the right.
proof fn lemma_enc_songs_snoc(vs: Seq<SongDataView>, v: SongDataView)
    ensures
        spec_enc_songs(vs.push(v)) == spec_enc_songs(vs) + spec_enc_song(v),
    decreases vs.len(),
{
    if vs.len() == 0 {
        assert(vs.push(v).len() == 1);
        assert(vs.push(v)[0] == v);
        assert(vs.push(v).drop_first() =~= vs);
        assert(spec_enc_songs(vs) =~= Seq::<u8>::empty());
        assert(spec_enc_songs(vs.push(v)) == spec_enc_song(vs.push(v)[0]) + spec_enc_songs(
            vs.push(v).drop_first(),
        ));
        assert(spec_enc_song(v) + Seq::<u8>::empty() =~= spec_enc_song(v));
        assert(Seq::<u8>::empty() + spec_enc_song(v) =~= spec_enc_song(v));
    } else {
        assert(vs.push(v).drop_first() =~= vs.drop_first().push(v));
        assert(vs.push(v)[0] == vs[0]);
        lemma_enc_songs_snoc(vs.drop_first(), v);
        assert(spec_enc_songs(vs.push(v)) =~= spec_enc_songs(vs) + spec_enc_song(v));
    }
}

/// Serialize a song list.
pub fn encode_songs(v: &Vec<SongData>) -> (r: Vec<u8>)
    ensures
        r@ == spec_enc_song_list(song_views(v@)),
        valid_songs(song_views(v@)),
{
    let mut out: Vec<u8> = Vec::new();
    push_u64(&mut out, v.len() as u64);
    let mut i: usize = 0;
    while i < v.len()
        invariant
            i <= v@.len(),
            out@ == spec_u64_to_le_bytes(v@.len() as u64) + spec_enc_songs(
                song_views(v@).subrange(0, i as int),
            ),
            forall|k: int| 0 <= k < i ==> valid_song(#[trigger] song_views(v@)[k]),
        decreases v@.len() - i,
    {
        let sd = &v[i];
        let ghost before = out@;
        push_u32(&mut out, sd.id);
        push_string(&mut out, sd.title.as_str());
        push_string(&mut out, sd.artist_name.as_str());
        proof {
            let sv = song_views(v@);
            assert(sv[i as int] == v@[i as int]@);
            assert(before + spec_enc_song(sd@) =~= out@);
            assert(out@ =~= spec_u64_to_le_bytes(v@.len() as u64) + (spec_enc_songs(
                sv.subrange(0, i as int),
            ) + spec_enc_song(sv[i as int])));
            lemma_enc_songs_snoc(sv.subrange(0, i as int), sv[i as int]);
            assert(sv.subrange(0, i as int).push(sv[i as int]) =~= sv.subrange(0, i + 1));
            assert(out@ =~= spec_u64_to_le_bytes(v@.len() as u64) + spec_enc_songs(
                sv.subrange(0, i + 1),
            ));
        }
        i = i + 1;
    }
    proof {
        assert(song_views(v@).subrange(0, v@.len() as int) =~= song_views(v@));
    }
    out
}

/// Read `n` song records at `pos`, appending them to `acc`.
fn read_songs(b: &Vec<u8>, pos: usize, n: u64, acc: &mut Vec<SongData>) -> (r: Option<usize>)
    requires
        pos <= b@.len(),
    ensures
        match spec_dec_songs(b@, pos as int, n as nat) {
            Some((vs, e)) => r == Some(e as usize) && song_views(final(acc)@) == song_views(
                old(acc)@,
            ) + vs && 0 <= e && e <= b@.len(),
            None => r is None,
        },
    decreases n,
{
    if n == 0 {
        proof {
            assert(song_views(acc@) + Seq::<SongDataView>::empty() =~= song_views(acc@));
        }
        return Some(pos);
    }
    match read_song_at(b, pos) {
        Some((sd, j)) => {
            let ghost sdg = sd;
            acc.push(sd);
            let r = read_songs(b, j, n - 1, acc);
            proof {
                let dvs = spec_dec_songs(b@, j as int, (n - 1) as nat);
                if dvs is Some {
                    let vs2 = dvs->Some_0.0;
                    let v0 = sdg@;
                    assert(song_views(old(acc)@.push(sdg)) =~= song_views(old(acc)@).push(v0));
                    assert(song_views(old(acc)@).push(v0) + vs2 =~= song_views(old(acc)@) + (
                    seq![v0] + vs2));
                }
            }
            r
        },
        None => None,
    }
}

/// Deserialize a payload holding exactly one song list.
pub fn decode_songs(b: &Vec<u8>) -> (r: Option<Vec<SongData>>)
    ensures
        match r {
            Some(v) => spec_dec_song_list(b@) == Some(song_views(v@)),
            None => spec_dec_song_list(b@) is None,
        },
{
    let _len: usize = b.len();
    match read_u64(b, 0) {
        Some((n, j)) => {
            let mut acc: Vec<SongData> = Vec::new();
            match read_songs(b, j, n, &mut acc) {
                Some(e) => {
                    if e == b.len() {
                        proof {
                            let dvs = spec_dec_songs(b@, j as int, n as nat);
                            let vs = dvs->Some_0.0;
                            assert(song_views(Seq::<SongData>::empty()) =~= Seq::<
                                SongDataView,
                            >::empty());
                            assert(Seq::<SongDataView>::empty() + vs =~= vs);
                        }
                        Some(acc)
                    } else {
                        None
                    }
                },
                None => None,
            }
        },
        None => None,
    }
}

} // verus!
