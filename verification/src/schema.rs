//! Fact schema.
//! Normalized join keys, denormalized payload.

use std::str::FromStr;

use unicode_normalization::UnicodeNormalization;

use crate::duration::HalfLife;
use crate::json::{in_brackets, Json};
use crate::predicate::Predicate;
use crate::number::{Real, FIVE, HALF, NINE_TENTHS, ONE, SEVEN_TENTHS, ZERO};
use crate::text::{digit, letter, same, split_last, to_small_text};
use crate::time::Timestamp;
use vstd::prelude::*;

verus! {

// ---------------------------------------------------------------------------
// Keys
// ---------------------------------------------------------------------------

/// Stable fact identity. The normalized claim (`entity.relation`) *is* the
/// identity: it is already canonical and unique, and it survives every
/// re-verification because a verifier run changes the value, never the key. A
/// key change is a different claim, i.e. a different fact, so no opaque id is
/// needed.
#[derive(Debug, PartialEq, Eq, Hash)]
pub struct FactId(pub String);

/// Canonical node identity.
/// Never a string recurring in many blobs; the scheduler traverses these.
#[derive(Debug, PartialEq, Eq, Hash)]
pub struct EntityId(pub String);

/// The join keys. Normalized.
#[derive(Debug, PartialEq, Eq)]
pub struct Claim {
    pub entity: EntityId,
    pub relation: String,
    pub nl: Option<String>,
}

/// Why a text is no key.
#[derive(Debug, Clone, Copy, PartialEq, Eq, Structural)]
pub enum KeyError {
    Missing,
}

impl KeyError {
    /// What a person is told.
    pub open spec fn message(&self) -> Seq<char> {
        "key must be of the form `entity.relation`"@
    }

    /// The message for a person.
    pub fn to_string(&self) -> (r: String)
        ensures
            r@ == self.message(),
    {
        "key must be of the form `entity.relation`".to_owned()
    }
}

/// The Unicode Normalization Form C of a text.
pub uninterp spec fn nfc_form(s: Seq<char>) -> Seq<char>;

/// Whether every character is ASCII.
pub open spec fn is_ascii_text(s: Seq<char>) -> bool {
    forall|i: int| 0 <= i < s.len() ==> (#[trigger] s[i] as u32) < 128
}

/// `UnicodeNormalization::nfc`, collected. Claimed: the result is a function of
/// the text; normalizing again changes nothing; a text is empty where its form
/// is; the form holds a full stop where the text does, for no character
/// decomposes into one and none combines with one; ASCII is its own form.
#[verifier::external_body]
pub(crate) fn nfc(s: &str) -> (r: String)
    ensures
        r@ == nfc_form(s@),
        nfc_form(r@) == r@,
        r@.len() == 0 <==> s@.len() == 0,
        r@.contains('.') <==> s@.contains('.'),
        is_ascii_text(s@) ==> r@ == s@,
{
    s.nfc().collect()
}

impl Claim {
    /// The `entity.relation` key of a claim.
    pub open spec fn key_spec(&self) -> Seq<char> {
        self.entity.0@ + seq!['.'] + self.relation@
    }

    /// Whether a claim is one that a key names: entity and relation normalized
    /// and not empty, and no full stop in the relation.
    pub open spec fn normal(&self) -> bool {
        &&& self.entity.0@.len() > 0
        &&& self.relation@.len() > 0
        &&& !self.relation@.contains('.')
        &&& nfc_form(self.entity.0@) == self.entity.0@
        &&& nfc_form(self.relation@) == self.relation@
    }

    /// The entity and the relation that a key names; `None` for a text that is
    /// no key.
    pub open spec fn key_parts(key: Seq<char>) -> Option<(Seq<char>, Seq<char>)> {
        match crate::text::rsplit_once(key, '.') {
            Some((entity, relation)) => if entity.len() == 0 || relation.len() == 0 {
                None
            } else {
                Some((nfc_form(entity), nfc_form(relation)))
            },
            None => None,
        }
    }

    /// Parses the `entity.relation` key form used across the CLI/MCP surface.
    /// Composed and decomposed spellings name the same claim.
    ///
    /// Returns [`KeyError::Missing`] if `key` is not of the form
    /// `entity.relation`.
    pub fn parse_key(key: &str) -> (r: Result<Claim, KeyError>)
        ensures
            match Claim::key_parts(key@) {
                Some((entity, relation)) => {
                    &&& r matches Ok(claim)
                    &&& claim.entity.0@ == entity
                    &&& claim.relation@ == relation
                    &&& claim.nl is None
                    &&& claim.normal()
                    &&& is_ascii_text(key@) ==> claim.key_spec() == key@
                },
                None => r == Err::<Claim, KeyError>(KeyError::Missing),
            },
    {
        match split_last(key, '.') {
            Some((entity, relation)) => {
                if entity.as_str().is_empty() || relation.as_str().is_empty() {
                    return Err(KeyError::Missing);
                }
                proof {
                    crate::text::lemma_last_at(key@, '.');
                    let n = crate::text::last_at(key@, '.');
                    assert(!relation@.contains('.')) by {
                        assert forall|i: int| 0 <= i < relation@.len() implies relation@[i]
                            != '.' by {
                            assert(relation@[i] == key@[n + 1 + i]);
                        }
                    }
                    assert(key@ =~= entity@ + seq!['.'] + relation@);
                    if is_ascii_text(key@) {
                        assert forall|i: int| 0 <= i < entity@.len() implies (
                        #[trigger] entity@[i] as u32) < 128 by {
                            assert(entity@[i] == key@[i]);
                        }
                        assert forall|i: int| 0 <= i < relation@.len() implies (
                        #[trigger] relation@[i] as u32) < 128 by {
                            assert(relation@[i] == key@[n + 1 + i]);
                        }
                    }
                }
                Ok(
                    Claim {
                        entity: EntityId(nfc(entity.as_str())),
                        relation: nfc(relation.as_str()),
                        nl: None,
                    },
                )
            },
            None => Err(KeyError::Missing),
        }
    }

    /// The key of the claim.
    pub fn key(&self) -> (r: String)
        ensures
            r@ == self.key_spec(),
    {
        let mut out = self.entity.0.clone();
        out.push('.');
        out.append(self.relation.as_str());
        assert(out@ =~= self.key_spec());
        out
    }

    /// Puts entity and relation into Unicode Normalization Form C.
    pub fn normalize(&mut self)
        ensures
            final(self).entity.0@ == nfc_form(old(self).entity.0@),
            final(self).relation@ == nfc_form(old(self).relation@),
            final(self).nl == old(self).nl,
            nfc_form(final(self).entity.0@) == final(self).entity.0@,
            nfc_form(final(self).relation@) == final(self).relation@,
    {
        self.entity = EntityId(nfc(self.entity.0.as_str()));
        self.relation = nfc(self.relation.as_str());
    }
}

impl Clone for Claim {
    fn clone(&self) -> (r: Self)
        ensures
            r == *self,
    {
        Claim {
            entity: self.entity.clone(),
            relation: self.relation.clone(),
            nl: crate::text::copy_option(&self.nl),
        }
    }
}

impl Clone for EntityId {
    fn clone(&self) -> (r: Self)
        ensures
            r == *self,
    {
        EntityId(self.0.clone())
    }
}

impl Clone for FactId {
    fn clone(&self) -> (r: Self)
        ensures
            r == *self,
    {
        FactId(self.0.clone())
    }
}

impl FactId {
    /// The fact's identity: its `entity.relation` key, verbatim and greppable.
    pub fn for_claim(claim: &Claim) -> (r: Self)
        ensures
            r.0@ == claim.key_spec(),
    {
        FactId(claim.key())
    }
}

/// The key of a normalized claim names that claim again: identity survives
/// being written down.
pub proof fn law_key_names_claim(claim: Claim)
    requires
        claim.normal(),
    ensures
        Claim::key_parts(claim.key_spec()) == Some((claim.entity.0@, claim.relation@)),
{
    let key = claim.key_spec();
    let n = claim.entity.0@.len() as int;
    assert forall|i: int| n < i < key.len() implies #[trigger] key[i] != '.' by {
        assert(key[i] == claim.relation@[i - n - 1]);
        assert(claim.relation@.contains(claim.relation@[i - n - 1]));
    }
    crate::text::lemma_last_at_is(key, '.', n);
    assert(key.take(n) =~= claim.entity.0@);
    assert(key.skip(n + 1) =~= claim.relation@);
}

/// Two normalized claims with the same key have the same entity and relation.
pub proof fn law_key_identifies_claim(a: Claim, b: Claim)
    requires
        a.normal(),
        b.normal(),
        a.key_spec() == b.key_spec(),
    ensures
        a.entity.0@ == b.entity.0@,
        a.relation@ == b.relation@,
{
    law_key_names_claim(a);
    law_key_names_claim(b);
}

// ---------------------------------------------------------------------------
// Paths
// ---------------------------------------------------------------------------

/// The characters that a file name keeps.
pub open spec fn is_plain_byte(b: u8) -> bool {
    ('a' <= b as char && b as char <= 'z') || ('0' <= b as char && b as char <= '9') || b == 45
        || b == 95
}

/// A hexadecimal digit.
pub open spec fn hex_char(n: int) -> char {
    if n < 10 {
        (48 + n) as char
    } else {
        (87 + n) as char
    }
}

/// A byte in a file name: itself, or `%` and two hexadecimal digits.
pub open spec fn escaped_byte(b: u8) -> Seq<char> {
    if is_plain_byte(b) {
        seq![b as char]
    } else {
        seq!['%', hex_char(b as int / 16), hex_char(b as int % 16)]
    }
}

/// Bytes in a file name.
pub open spec fn escaped(bytes: Seq<u8>) -> Seq<char>
    decreases bytes.len(),
{
    if bytes.len() == 0 {
        Seq::empty()
    } else {
        escaped_byte(bytes[0]) + escaped(bytes.skip(1))
    }
}

/// A part of a key as a file name.
pub open spec fn file_name(s: Seq<char>) -> Seq<char> {
    escaped(vstd::utf8::encode_utf8(s))
}

/// Where the fact with a given entity and relation is kept.
pub open spec fn path_spec(entity: Seq<char>, relation: Seq<char>) -> Seq<char> {
    "facts/"@ + file_name(entity) + seq!['/'] + file_name(relation) + ".json"@
}

pub(crate) fn hex_digit(n: u8) -> (r: char)
    requires
        n < 16,
    ensures
        r == hex_char(n as int),
{
    if n < 10 {
        (48 + n) as char
    } else {
        (87 + n) as char
    }
}

/// A part of a key as a file name: small letters, digits, `-` and `_` stand for
/// themselves, every other byte is escaped. No two texts share a name, also
/// where the file system ignores case.
fn escape(s: &str) -> (r: String)
    ensures
        r@ == file_name(s@),
{
    let bytes = s.as_bytes();
    let mut out = String::new();
    let mut i: usize = 0;
    assert(bytes@.skip(0) =~= bytes@);
    assert(out@ + escaped(bytes@) =~= escaped(bytes@));
    while i < bytes.len()
        invariant
            i <= bytes.len(),
            bytes@ == vstd::utf8::encode_utf8(s@),
            out@ + escaped(bytes@.skip(i as int)) == file_name(s@),
        decreases bytes.len() - i,
    {
        let b: u8 = bytes[i];
        let ghost before = out@;
        let ghost rest = escaped(bytes@.skip(i + 1));
        assert(bytes@.skip(i as int).skip(1) =~= bytes@.skip(i + 1));
        if (97 <= b && b <= 122) || (48 <= b && b <= 57) || b == 45 || b == 95 {
            out.push(b as char);
        } else {
            out.push('%');
            out.push(hex_digit(b / 16));
            out.push(hex_digit(b % 16));
        }
        assert(out@ =~= before + escaped_byte(b));
        assert(before + escaped_byte(b) + rest =~= before + (escaped_byte(b) + rest));
        i = i + 1;
    }
    assert(escaped(bytes@.skip(i as int)) =~= Seq::<char>::empty());
    assert(out@ + Seq::<char>::empty() =~= out@);
    out
}

/// No two byte strings share a file name.
proof fn lemma_escaped_tells_apart(a: Seq<u8>, b: Seq<u8>)
    requires
        escaped(a) == escaped(b),
    ensures
        a == b,
    decreases a.len(),
{
    if a.len() == 0 {
        assert(escaped(a).len() == 0);
        if b.len() > 0 {
            assert(escaped(b).len() == escaped_byte(b[0]).len() + escaped(b.skip(1)).len());
            assert(escaped_byte(b[0]).len() > 0);
        }
        assert(b.len() == 0);
        assert(a =~= b);
    } else {
        let x = escaped_byte(a[0]);
        let y = escaped_byte(b[0]);
        assert(x.len() > 0 && escaped(a).len() > 0);
        assert(escaped(a)[0] == x[0]);
        assert(b.len() > 0);
        assert(escaped(b)[0] == y[0]);
        assert(is_plain_byte(a[0]) == is_plain_byte(b[0]));
        if !is_plain_byte(a[0]) {
            assert(escaped(a)[1] == x[1] && escaped(a)[2] == x[2]);
            assert(escaped(b)[1] == y[1] && escaped(b)[2] == y[2]);
            assert(a[0] as int / 16 == b[0] as int / 16);
            assert(a[0] as int % 16 == b[0] as int % 16);
        }
        assert(a[0] == b[0]);
        assert(escaped(a.skip(1)) =~= escaped(a).skip(x.len() as int));
        assert(escaped(b.skip(1)) =~= escaped(b).skip(y.len() as int));
        lemma_escaped_tells_apart(a.skip(1), b.skip(1));
        assert(a =~= seq![a[0]] + a.skip(1));
        assert(b =~= seq![b[0]] + b.skip(1));
    }
}

/// The characters that a file name may hold.
pub open spec fn is_file_char(c: char) -> bool {
    ('a' <= c && c <= 'z') || ('0' <= c && c <= '9') || c == '-' || c == '_' || c == '%'
}

proof fn lemma_escaped_chars(bytes: Seq<u8>)
    ensures
        forall|i: int| 0 <= i < escaped(bytes).len() ==> is_file_char(#[trigger] escaped(bytes)[i]),
    decreases bytes.len(),
{
    if bytes.len() > 0 {
        lemma_escaped_chars(bytes.skip(1));
        let x = escaped_byte(bytes[0]);
        let t = escaped(bytes.skip(1));
        assert forall|i: int| 0 <= i < escaped(bytes).len() implies is_file_char(
            #[trigger] escaped(bytes)[i],
        ) by {
            if i < x.len() {
                assert(escaped(bytes)[i] == x[i]);
            } else {
                assert(escaped(bytes)[i] == t[i - x.len()]);
            }
        }
    }
}

/// Two claims kept at the same path have the same entity and relation: no fact
/// can take another's place.
pub proof fn law_paths_tell_claims_apart(
    entity: Seq<char>,
    relation: Seq<char>,
    other_entity: Seq<char>,
    other_relation: Seq<char>,
)
    requires
        path_spec(entity, relation) == path_spec(other_entity, other_relation),
    ensures
        entity == other_entity,
        relation == other_relation,
{
    reveal_strlit("facts/");
    reveal_strlit(".json");
    lemma_path_split(entity, relation);
    lemma_path_split(other_entity, other_relation);
    lemma_escaped_tells_apart(
        vstd::utf8::encode_utf8(entity),
        vstd::utf8::encode_utf8(other_entity),
    );
    lemma_escaped_tells_apart(
        vstd::utf8::encode_utf8(relation),
        vstd::utf8::encode_utf8(other_relation),
    );
    vstd::utf8::encode_utf8_decode_utf8(entity);
    vstd::utf8::encode_utf8_decode_utf8(other_entity);
    vstd::utf8::encode_utf8_decode_utf8(relation);
    vstd::utf8::encode_utf8_decode_utf8(other_relation);
}

/// The two file names can be read off a path.
proof fn lemma_path_split(entity: Seq<char>, relation: Seq<char>)
    ensures
        ({
            let s = path_spec(entity, relation);
            let t = s.subrange(6, s.len() - 5);
            let n = crate::text::first_at(t, '/');
            &&& t.take(n) == file_name(entity)
            &&& t.skip(n + 1) == file_name(relation)
        }),
{
    reveal_strlit("facts/");
    reveal_strlit(".json");
    let s = path_spec(entity, relation);
    let t = s.subrange(6, s.len() - 5);
    let e = file_name(entity);
    let r = file_name(relation);
    lemma_escaped_chars(vstd::utf8::encode_utf8(entity));
    assert(t =~= e + seq!['/'] + r);
    assert forall|i: int| 0 <= i < e.len() implies #[trigger] t[i] != '/' by {
        assert(t[i] == e[i]);
    }
    crate::text::lemma_first_at_is(t, '/', e.len() as int);
    assert(t.take(e.len() as int) =~= e);
    assert(t.skip(e.len() as int + 1) =~= r);
}

/// A path holds no capital letter, so that distinct keys stay separate where
/// the file system ignores case.
pub proof fn law_paths_ignore_case(entity: Seq<char>, relation: Seq<char>)
    ensures
        crate::text::small_text(path_spec(entity, relation)) == path_spec(entity, relation),
{
    reveal_strlit("facts/");
    reveal_strlit(".json");
    let s = path_spec(entity, relation);
    let e = file_name(entity);
    let r = file_name(relation);
    lemma_escaped_chars(vstd::utf8::encode_utf8(entity));
    lemma_escaped_chars(vstd::utf8::encode_utf8(relation));
    assert forall|i: int| 0 <= i < s.len() implies crate::text::small(#[trigger] s[i]) == s[i] by {
        if i < 6 {
            assert(s[i] == "facts/"@[i]);
        } else if i < 6 + e.len() {
            assert(s[i] == e[i - 6]);
        } else if i == 6 + e.len() {
            assert(s[i] == '/');
        } else if i < 7 + e.len() + r.len() {
            assert(s[i] == r[i - 7 - e.len()]);
        } else {
            assert(s[i] == ".json"@[i - 7 - e.len() - r.len()]);
        }
    }
    assert(crate::text::small_text(s) =~= s);
}

/// No key leads out of the store's facts: what an entity or a relation becomes in a
/// path holds neither a separator nor a full stop.
pub proof fn law_paths_stay_inside(s: Seq<char>)
    ensures
        !file_name(s).contains('/'),
        !file_name(s).contains('\\'),
        !file_name(s).contains('.'),
{
    lemma_escaped_chars(vstd::utf8::encode_utf8(s));
    let name = file_name(s);
    assert forall|i: int| 0 <= i < name.len() implies name[i] != '/' && name[i] != '\\' && name[i]
        != '.' by {
        assert(is_file_char(name[i]));
    }
}

/// Where a fact is kept: `facts/<entity>/<relation>.json`, with punctuation,
/// capitals and Unicode escaped.
pub fn path_for(claim: &Claim) -> (r: String)
    ensures
        r@ == path_spec(claim.entity.0@, claim.relation@),
{
    let mut out = "facts/".to_owned();
    let entity = escape(claim.entity.0.as_str());
    let relation = escape(claim.relation.as_str());
    out.append(entity.as_str());
    out.push('/');
    out.append(relation.as_str());
    out.append(".json");
    assert(out@ =~= path_spec(claim.entity.0@, claim.relation@));
    out
}

/// A character that file names used to keep, or the underscore in its place.
pub open spec fn sanitized_char(c: char) -> char {
    if crate::text::is_letter(c) || crate::text::is_digit(c) || c == '-' || c == '_' {
        c
    } else {
        '_'
    }
}

/// A text with underscores for all but ASCII letters, digits, `-` and `_`.
pub open spec fn sanitized(s: Seq<char>) -> Seq<char> {
    s.map_values(|c: char| sanitized_char(c))
}

/// Keeps keys filesystem-safe while staying greppable.
pub fn sanitize(s: &str) -> (r: String)
    ensures
        r@ == sanitized(s@),
{
    let mut out = String::new();
    for c in it: s.chars()
        invariant
            it.seq() == s@,
            out@ == sanitized(s@.take(it.index() as int)),
    {
        if letter(c) || digit(c) || c == '-' || c == '_' {
            out.push(c);
        } else {
            out.push('_');
        }
        assert(sanitized(s@.take(it.index() + 1)) =~= sanitized(s@.take(it.index() as int)).push(
            sanitized_char(s@[it.index() as int]),
        ));
    }
    assert(s@.take(s@.len() as int) =~= s@);
    out
}

/// Where a fact was kept before file names were escaped.
pub open spec fn legacy_path_spec(entity: Seq<char>, relation: Seq<char>) -> Seq<char> {
    "facts/"@ + sanitized(entity) + seq!['/'] + sanitized(relation) + ".json"@
}

/// Where a fact was kept before file names were escaped. Keys that differ only
/// in punctuation share such a path.
pub fn legacy_path_for(claim: &Claim) -> (r: String)
    ensures
        r@ == legacy_path_spec(claim.entity.0@, claim.relation@),
{
    let mut out = "facts/".to_owned();
    let entity = sanitize(claim.entity.0.as_str());
    let relation = sanitize(claim.relation.as_str());
    out.append(entity.as_str());
    out.push('/');
    out.append(relation.as_str());
    out.append(".json");
    assert(out@ =~= legacy_path_spec(claim.entity.0@, claim.relation@));
    out
}

// ---------------------------------------------------------------------------
// Values
// ---------------------------------------------------------------------------

/// The payload. Denormalized; only the verifier and the LLM read inside it.
#[derive(Debug, Clone, PartialEq)]
pub enum FactValue {
    Scalar { value: Json },
    Elements { elements: Vec<Element> },
}

/// An assertion: the atomic proposition.
/// Carries its own epistemics only when it earns them, so gain and conflict
/// land per element.
#[derive(Debug, Clone, PartialEq)]
pub struct Element {
    pub value: Json,
    pub seen: Timestamp,
    pub confidence: Option<Real>,
    pub conflict: Option<ConflictMarker>,
}

#[derive(Debug, Clone, PartialEq)]
pub struct ConflictMarker {
    pub verifiers: Vec<GeneratorHash>,
}

/// The compact texts of the values of some elements.
pub open spec fn element_texts(elements: Seq<Element>) -> Seq<Seq<char>> {
    elements.map_values(|e: Element| e.value.text@)
}

fn texts_of(elements: &Vec<Element>) -> (r: Vec<String>)
    ensures
        crate::text::texts(r@) == element_texts(elements@),
{
    let mut out: Vec<String> = Vec::new();
    let mut i: usize = 0;
    while i < elements.len()
        invariant
            i <= elements.len(),
            out@.len() == i,
            forall|k: int| 0 <= k < i ==> (#[trigger] out@[k])@ == elements@[k].value.text@,
        decreases elements.len() - i,
    {
        out.push(elements[i].value.text.clone());
        i = i + 1;
    }
    assert(crate::text::texts(out@) =~= element_texts(elements@));
    out
}

impl FactValue {
    /// The value as it is passed to a verifier.
    pub open spec fn env_spec(&self) -> Seq<char> {
        match *self {
            FactValue::Scalar { value } => Json::plain_spec(value.text@),
            FactValue::Elements { elements } => crate::json::bracketed(
                element_texts(elements@),
                seq![','],
            ),
        }
    }

    /// The value as it is passed to a verifier via `KEN_VALUE`: a string
    /// without quotes, anything else as compact JSON.
    pub fn as_env(&self) -> (r: String)
        ensures
            r@ == self.env_spec(),
    {
        match self {
            FactValue::Scalar { value } => value.plain(),
            FactValue::Elements { elements } => {
                proof {
                    reveal_strlit(",");
                    assert(","@ =~= seq![',']);
                }
                in_brackets(&texts_of(elements), ",")
            },
        }
    }

    /// The value as people read it.
    pub open spec fn render_spec(&self) -> Seq<char> {
        match *self {
            FactValue::Scalar { value } => Json::plain_spec(value.text@),
            FactValue::Elements { elements } => crate::json::bracketed(
                element_texts(elements@),
                seq![',', ' '],
            ),
        }
    }

    /// The value as people read it.
    pub fn render(&self) -> (r: String)
        ensures
            r@ == self.render_spec(),
    {
        match self {
            FactValue::Scalar { value } => value.plain(),
            FactValue::Elements { elements } => {
                proof {
                    reveal_strlit(", ");
                    assert(", "@ =~= seq![',', ' ']);
                }
                in_brackets(&texts_of(elements), ", ")
            },
        }
    }
}

// ---------------------------------------------------------------------------
// Belief
// ---------------------------------------------------------------------------

/// Confidence and groundedness must never merge.
#[derive(Debug, Clone, PartialEq)]
pub struct Epistemics {
    pub confidence: Real,
    pub groundedness: Groundedness,
}

#[derive(Debug, Clone, PartialEq)]
pub enum Groundedness {
    /// An ingested or manually doubted claim.
    Ungrounded { source: TriageSource },
    /// The checked grounds confirm the claim, with no refutations.
    Verified { at: Timestamp, by: GeneratorHash },
    /// The checked grounds refute the claim, with no confirmations.
    Refuted { at: Timestamp, by: GeneratorHash },
    /// Some checked grounds confirm the claim and others refute it.
    Conflicted { verifiers: Vec<GeneratorHash> },
}

impl Groundedness {
    /// The weight of a belief in its neighbours' centrality.
    pub open spec fn weight_bits(&self) -> u64 {
        match *self {
            Groundedness::Ungrounded { .. } => ZERO,
            Groundedness::Refuted { .. } => ZERO,
            Groundedness::Conflicted { .. } => HALF,
            Groundedness::Verified { .. } => ONE,
        }
    }

    /// Sybil-resistant centrality weight: ungrounded and refuted contribute
    /// zero, conflicted contributes partial, verified contributes full.
    pub fn trust_weight(&self) -> (r: Real)
        ensures
            r.bits == self.weight_bits(),
    {
        match self {
            Groundedness::Ungrounded { .. } => Real { bits: ZERO },
            Groundedness::Refuted { .. } => Real { bits: ZERO },
            Groundedness::Conflicted { .. } => Real { bits: HALF },
            Groundedness::Verified { .. } => Real { bits: ONE },
        }
    }

    /// The name of the state.
    pub open spec fn label_spec(&self) -> Seq<char> {
        match *self {
            Groundedness::Ungrounded { .. } => "ungrounded"@,
            Groundedness::Verified { .. } => "verified"@,
            Groundedness::Refuted { .. } => "refuted"@,
            Groundedness::Conflicted { .. } => "conflicted"@,
        }
    }

    /// The name of the state.
    pub fn label(&self) -> (r: &'static str)
        ensures
            r@ == self.label_spec(),
    {
        match self {
            Groundedness::Ungrounded { .. } => "ungrounded",
            Groundedness::Verified { .. } => "verified",
            Groundedness::Refuted { .. } => "refuted",
            Groundedness::Conflicted { .. } => "conflicted",
        }
    }
}

#[derive(Debug, Clone, Copy, PartialEq, Eq, Structural)]
pub enum TriageSource {
    Llm { meta_confidence: Real },
    Ingest,
    Manual,
}

/// How fast a claim goes stale, as named classes.
#[derive(Debug, Clone, Copy, PartialEq, Eq, Structural)]
pub enum Volatility {
    Immutable,
    Slow,
    Days,
    Hours,
}

impl Volatility {
    /// The class with a given name, in any case.
    pub open spec fn named(s: Seq<char>) -> Option<Volatility> {
        let name = crate::text::small_text(s);
        if name == "immutable"@ {
            Some(Volatility::Immutable)
        } else if name == "slow"@ {
            Some(Volatility::Slow)
        } else if name == "days"@ {
            Some(Volatility::Days)
        } else if name == "hours"@ {
            Some(Volatility::Hours)
        } else {
            None
        }
    }

    /// Reads the name of a class; the error says which name is unknown.
    pub fn parse(s: &str) -> (r: Result<Self, String>)
        ensures
            match Volatility::named(s@) {
                Some(class) => r == Ok::<Volatility, String>(class),
                None => r matches Err(e) && e@ == "unknown volatility class: "@
                    + crate::text::small_text(s@),
            },
    {
        let name = to_small_text(s);
        if same(name.as_str(), "immutable") {
            Ok(Volatility::Immutable)
        } else if same(name.as_str(), "slow") {
            Ok(Volatility::Slow)
        } else if same(name.as_str(), "days") {
            Ok(Volatility::Days)
        } else if same(name.as_str(), "hours") {
            Ok(Volatility::Hours)
        } else {
            Err("unknown volatility class: ".to_owned().concat(name.as_str()))
        }
    }
}

impl FromStr for Volatility {
    type Err = String;

    fn from_str(s: &str) -> (r: Result<Self, String>)
        ensures
            match Volatility::named(s@) {
                Some(class) => r == Ok::<Volatility, String>(class),
                None => r matches Err(e) && e@ == "unknown volatility class: "@
                    + crate::text::small_text(s@),
            },
    {
        Volatility::parse(s)
    }
}

#[derive(Debug, Clone, Copy, PartialEq, Eq)]
pub struct ScheduleMeta {
    pub half_life: HalfLife,
    pub centrality: Real,
    pub last_verified: Timestamp,
    /// Posterior variance at the last verification; inflates with time.
    pub variance_at_verify: Real,
    /// Scheduler-set ordering priority (never truth).
    pub priority: Real,
}

// ---------------------------------------------------------------------------
// Grounds
// ---------------------------------------------------------------------------

/// Content hash of a source generator (covers source AND capabilities), or a
/// synthetic marker (`file`, `command`, `existence`) for non-generator sources.
#[derive(Debug, PartialEq, Eq, Hash)]
pub struct GeneratorHash(pub String);

impl Clone for GeneratorHash {
    fn clone(&self) -> (r: Self)
        ensures
            r == *self,
    {
        GeneratorHash(self.0.clone())
    }
}

/// What a generator or handler may reach.
#[derive(Debug, Clone, PartialEq, Eq)]
pub struct Capabilities {
    pub net: Vec<String>,
    pub read: Vec<String>,
    /// Host environment variables the sandbox may read (e.g. an auth token a
    /// scheme handler needs). Folded into the content hash like `net`/`read`.
    pub env: Vec<String>,
}

impl Default for Capabilities {
    fn default() -> (r: Self)
        ensures
            r.net@.len() == 0,
            r.read@.len() == 0,
            r.env@.len() == 0,
    {
        Capabilities { net: Vec::new(), read: Vec::new(), env: Vec::new() }
    }
}

impl Capabilities {
    /// Whether two capability sets list the same things in the same order.
    pub open spec fn same_as(&self, other: &Capabilities) -> bool {
        self.net@ == other.net@ && self.read@ == other.read@ && self.env@ == other.env@
    }

    /// A copy of the capabilities.
    pub fn copy(&self) -> (r: Capabilities)
        ensures
            r.same_as(self),
    {
        Capabilities {
            net: crate::text::copy_all(&self.net),
            read: crate::text::copy_all(&self.read),
            env: crate::text::copy_all(&self.env),
        }
    }
}

/// The first `n` bytes of a text, as text; all of it where it is shorter.
pub open spec fn byte_prefix(s: Seq<char>, n: int) -> Seq<char> {
    let bytes = vstd::utf8::encode_utf8(s);
    vstd::utf8::decode_utf8(bytes.take(if bytes.len() < n { bytes.len() as int } else { n }))
}

/// Whether a text can be cut behind its first `n` bytes.
pub open spec fn can_cut(s: Seq<char>, n: int) -> bool {
    let bytes = vstd::utf8::encode_utf8(s);
    vstd::utf8::is_char_boundary(bytes, if bytes.len() < n { bytes.len() as int } else { n })
}

/// A hash cut to six bytes.
pub(crate) fn short_hash(s: &str) -> (r: &str)
    requires
        can_cut(s@, 6),
    ensures
        r@ == byte_prefix(s@, 6),
{
    let bytes = s.as_bytes();
    let n: usize = if bytes.len() < 6 {
        bytes.len()
    } else {
        6
    };
    let (short, _rest) = s.split_at(n);
    proof {
        vstd::utf8::encode_utf8_decode_utf8(short@);
        assert(bytes@.subrange(0, n as int) =~= bytes@.take(n as int));
    }
    short
}

/// A name and the start of a hash, with `@` between.
pub open spec fn name_at_hash(name: Seq<char>, hash: Seq<char>) -> Seq<char> {
    name + seq!['@'] + byte_prefix(hash, 6)
}

fn display_name(name: &str, hash: &str) -> (r: String)
    requires
        can_cut(hash@, 6),
    ensures
        r@ == name_at_hash(name@, hash@),
{
    let mut out = name.to_owned();
    out.push('@');
    out.append(short_hash(hash));
    assert(out@ =~= name_at_hash(name@, hash@));
    out
}

/// A content-addressed source generator: sandboxed code that emits the ground
/// value.
/// The capability set lives inside the hash, so a generator that quietly starts
/// asking for the network produces a loud diff and a grant.
#[derive(Debug, Clone, PartialEq)]
pub struct GeneratorRef {
    pub hash: GeneratorHash,
    pub caps: Capabilities,
    pub cost_estimate: Real,
    /// On-disk source path, relative to the store root.
    pub src_path: String,
    /// Human label, e.g. `notion-roster.ts`.
    pub name: String,
}

impl GeneratorRef {
    /// `caps.net` non-empty makes a generator the expensive, less-trusted tier.
    pub fn is_net(&self) -> (r: bool)
        ensures
            r == (self.caps.net@.len() > 0),
    {
        self.caps.net.len() > 0
    }

    /// `name@hashprefix`, the form shown in `recall`/`why`.
    pub fn display(&self) -> (r: String)
        requires
            can_cut(self.hash.0@, 6),
        ensures
            r@ == name_at_hash(self.name@, self.hash.0@),
    {
        display_name(self.name.as_str(), self.hash.0.as_str())
    }

    /// Whether two references agree in everything.
    pub open spec fn same_as(&self, other: &GeneratorRef) -> bool {
        &&& self.hash == other.hash
        &&& self.caps.same_as(&other.caps)
        &&& self.cost_estimate == other.cost_estimate
        &&& self.src_path == other.src_path
        &&& self.name == other.name
    }

    /// A copy of the reference.
    pub fn copy(&self) -> (r: GeneratorRef)
        ensures
            r.same_as(self),
    {
        GeneratorRef {
            hash: self.hash.clone(),
            caps: self.caps.copy(),
            cost_estimate: self.cost_estimate,
            src_path: self.src_path.clone(),
            name: self.name.clone(),
        }
    }
}

/// A content-addressed scheme handler: sandboxed code mounted under a CURIE
/// prefix (`[sources.<scheme>]` with a `handler`) that resolves a reference to
/// document bytes.
/// Like a generator, its capability set lives inside the hash, so a handler
/// that starts asking for the network produces a loud diff and a re-ground.
#[derive(Debug, Clone, PartialEq)]
pub struct HandlerRef {
    pub hash: GeneratorHash,
    pub caps: Capabilities,
    pub cost_estimate: Real,
    /// On-disk source path, relative to the store root (e.g. `handlers/wiki.ts`).
    pub src_path: String,
    /// The CURIE scheme this handler is mounted under (e.g. `wiki`).
    pub scheme: String,
}

impl HandlerRef {
    /// `caps.net` non-empty makes a handler the expensive, less-trusted tier.
    pub fn is_net(&self) -> (r: bool)
        ensures
            r == (self.caps.net@.len() > 0),
    {
        self.caps.net.len() > 0
    }

    /// `scheme@hashprefix`, the form shown in `recall`/`why`.
    pub fn display(&self) -> (r: String)
        requires
            can_cut(self.hash.0@, 6),
        ensures
            r@ == name_at_hash(self.scheme@, self.hash.0@),
    {
        display_name(self.scheme.as_str(), self.hash.0.as_str())
    }
}

/// A scheme-handler read: the mounted handler plus the reference (the CURIE's
/// path, e.g. `Architecture`) and an optional pinned revision handed to it.
#[derive(Debug, Clone, PartialEq)]
pub struct HandlerSource {
    pub handler: HandlerRef,
    pub reference: String,
    pub rev: Option<String>,
}

#[derive(Debug, Clone, PartialEq)]
pub struct Provenance {
    pub ingested_by: String,
    pub ingested_at: Timestamp,
}

/// Result of a ground check against a ground source.
#[derive(Debug, Clone, Copy, PartialEq, Eq, Structural)]
pub enum Outcome {
    Confirmed,
    Refuted,
    /// The source could not be read in a way we can trust (spawn/exec failure,
    /// allowlist denial, generator crash). Not a refutation.
    Errored,
    /// A transient read failure on a non-deterministic channel (net timeout,
    /// 5xx). Schedules a retry; does not move belief.
    Inconclusive,
}

impl Outcome {
    /// The name of the outcome.
    pub open spec fn label_spec(&self) -> Seq<char> {
        match *self {
            Outcome::Confirmed => "confirmed"@,
            Outcome::Refuted => "refuted"@,
            Outcome::Errored => "errored"@,
            Outcome::Inconclusive => "inconclusive"@,
        }
    }

    /// The name of the outcome.
    pub fn label(&self) -> (r: &'static str)
        ensures
            r@ == self.label_spec(),
    {
        match self {
            Outcome::Confirmed => "confirmed",
            Outcome::Refuted => "refuted",
            Outcome::Errored => "errored",
            Outcome::Inconclusive => "inconclusive",
        }
    }

    /// Only confirmed/refuted move confidence and feed calibration.
    pub open spec fn moves_belief(&self) -> bool {
        *self is Confirmed || *self is Refuted
    }

    /// Only confirmed/refuted move confidence and feed calibration.
    pub fn updates_belief(&self) -> (r: bool)
        ensures
            r == self.moves_belief(),
    {
        match self {
            Outcome::Confirmed => true,
            Outcome::Refuted => true,
            Outcome::Errored => false,
            Outcome::Inconclusive => false,
        }
    }
}

/// Where a source root resolves.
/// `Named` roots come from `[sources.*]`.
#[derive(Debug, PartialEq, Eq)]
pub enum SourceRoot {
    /// The project the store lives inside (the store root's parent).
    Project,
    /// The store itself.
    Store,
    /// A configured external repo, resolved via `[sources.<name>]`.
    Named(String),
}

impl Clone for SourceRoot {
    fn clone(&self) -> (r: Self)
        ensures
            r == *self,
    {
        match self {
            SourceRoot::Project => SourceRoot::Project,
            SourceRoot::Store => SourceRoot::Store,
            SourceRoot::Named(name) => SourceRoot::Named(name.clone()),
        }
    }
}

/// A typed reference to where a truth lives: a root, a path within it, and an
/// optional pinned revision.
#[derive(Debug, PartialEq, Eq)]
pub struct SourceRef {
    pub root: SourceRoot,
    pub path: String,
    pub rev: Option<String>,
}

impl Clone for SourceRef {
    fn clone(&self) -> (r: Self)
        ensures
            r == *self,
    {
        SourceRef {
            root: self.root.clone(),
            path: self.path.clone(),
            rev: crate::text::copy_option(&self.rev),
        }
    }
}

/// A host command run to produce a ground value (HTTP folds in here as `curl`).
/// Gated by the `[command]` allowlist on `argv[0]`.
#[derive(Debug, Clone, PartialEq, Eq)]
pub struct CommandSource {
    pub argv: Vec<String>,
    /// Working directory root for the command.
    pub root: SourceRoot,
}

/// The root a command runs in where none is given.
pub fn project_root() -> (r: SourceRoot)
    ensures
        r == SourceRoot::Project,
{
    SourceRoot::Project
}

/// The kind of ground source. `File` reads bytes; `Command` runs an allowlisted
/// host program; `Generator` runs sandboxed code that emits the value. Code and
/// capabilities live here (the *reading* layer), never in the judge.
#[derive(Debug, Clone, PartialEq)]
pub enum GroundSource {
    File(SourceRef),
    Command(CommandSource),
    Generator(GeneratorRef),
    /// A scheme handler mounted under a CURIE prefix: code that resolves a
    /// reference to bytes, which the locator then projects.
    Handler(HandlerSource),
}

/// The channel weight for a generator/handler, by whether it holds `net`.
pub open spec fn net_weight(is_net: bool) -> u64 {
    if is_net {
        HALF
    } else {
        NINE_TENTHS
    }
}

/// The channel weight for a generator/handler, by whether it holds `net`.
fn weight_for_net(is_net: bool) -> (r: Real)
    ensures
        r.bits == net_weight(is_net),
{
    if is_net {
        Real { bits: HALF }
    } else {
        Real { bits: NINE_TENTHS }
    }
}

impl GroundSource {
    /// Whether reading the source may go over a network.
    pub open spec fn net_spec(&self) -> bool {
        match *self {
            GroundSource::File(_) => false,
            GroundSource::Command(_) => true,
            GroundSource::Generator(g) => g.caps.net@.len() > 0,
            GroundSource::Handler(h) => h.handler.caps.net@.len() > 0,
        }
    }

    /// The trust weight of the channel.
    pub open spec fn weight_bits(&self) -> u64 {
        match *self {
            GroundSource::File(_) => ONE,
            GroundSource::Command(_) => SEVEN_TENTHS,
            _ => net_weight(self.net_spec()),
        }
    }

    /// The cost of a read.
    pub open spec fn cost_bits(&self) -> u64 {
        match *self {
            GroundSource::File(_) => ONE,
            GroundSource::Command(_) => FIVE,
            GroundSource::Generator(g) => g.cost_estimate.bits,
            GroundSource::Handler(h) => h.handler.cost_estimate.bits,
        }
    }

    /// Trust weight of the channel: a local file read is deterministic and
    /// un-eclipse-able, so it counts full; a command or a net-capable generator
    /// is more eclipse-able, so it discounts the gain.
    pub fn channel_weight(&self) -> (r: Real)
        ensures
            r.bits == self.weight_bits(),
    {
        match self {
            GroundSource::File(_) => Real { bits: ONE },
            GroundSource::Command(_) => Real { bits: SEVEN_TENTHS },
            GroundSource::Generator(g) => weight_for_net(g.is_net()),
            GroundSource::Handler(h) => weight_for_net(h.handler.is_net()),
        }
    }

    /// Whether reading this source goes over a non-deterministic channel
    /// (net-capable generator). Commands are treated as potentially networked.
    pub fn is_net(&self) -> (r: bool)
        ensures
            r == self.net_spec(),
    {
        match self {
            GroundSource::File(_) => false,
            GroundSource::Command(_) => true,
            GroundSource::Generator(g) => g.is_net(),
            GroundSource::Handler(h) => h.handler.is_net(),
        }
    }

    /// Per-read cost for `VoI`: a file read is cheap; a command or generator
    /// spawns a process.
    pub fn cost(&self) -> (r: Real)
        ensures
            r.bits == self.cost_bits(),
    {
        match self {
            GroundSource::File(_) => Real { bits: ONE },
            GroundSource::Command(_) => Real { bits: FIVE },
            GroundSource::Generator(g) => g.cost_estimate,
            GroundSource::Handler(h) => h.handler.cost_estimate,
        }
    }

    /// The name of the kind; for a handler its scheme, uppercased.
    pub open spec fn kind_spec(&self) -> Seq<char> {
        match *self {
            GroundSource::File(_) => "FILE"@,
            GroundSource::Command(_) => "CMD"@,
            GroundSource::Generator(_) => "GEN"@,
            GroundSource::Handler(h) => crate::text::upper_form(h.handler.scheme@),
        }
    }

    /// The name of the kind; for a handler its scheme, uppercased.
    pub fn kind_label(&self) -> (r: String)
        ensures
            r@ == self.kind_spec(),
    {
        match self {
            GroundSource::File(_) => "FILE".to_owned(),
            GroundSource::Command(_) => "CMD".to_owned(),
            GroundSource::Generator(_) => "GEN".to_owned(),
            GroundSource::Handler(h) => crate::text::upper(h.handler.scheme.as_str()),
        }
    }
}

/// Points at the span within a source the fact is about.
#[derive(Debug, PartialEq, Eq)]
pub enum Locator {
    /// `Doc.md#heading` — a Markdown section.
    Heading { heading: String },
    /// `Doc.md?q="..."` — a quoted substring, re-found if it drifts.
    Quote { needle: String },
    /// `file#L40-58` — a line range, always paired with the span hash.
    LineRange { start: usize, end: usize },
    /// `file#ts:(query)` — a tree-sitter match. Parsed but resolution deferred.
    TreeSitter { lang: String, query: String },
    /// The whole file.
    Whole,
}

impl Clone for Locator {
    fn clone(&self) -> (r: Self)
        ensures
            r == *self,
    {
        match self {
            Locator::Heading { heading } => Locator::Heading { heading: heading.clone() },
            Locator::Quote { needle } => Locator::Quote { needle: needle.clone() },
            Locator::LineRange { start, end } => Locator::LineRange { start: *start, end: *end },
            Locator::TreeSitter { lang, query } => Locator::TreeSitter {
                lang: lang.clone(),
                query: query.clone(),
            },
            Locator::Whole => Locator::Whole,
        }
    }
}

/// The state a ground check last resolved to: the replay binding.
/// A confirmation is bound to the exact span it saw.
#[derive(Debug, Clone, PartialEq)]
pub struct Resolved {
    pub rev: String,
    pub span_hash: String,
    pub at: Timestamp,
    pub outcome: Outcome,
    pub by: Option<GeneratorHash>,
}

/// One independent grounding of a fact: a typed source (where/how to read), a
/// locator (which span), and a predicate (how to judge). The source carries any
/// code and capabilities; the predicate is pure.
#[derive(Debug, Clone, PartialEq)]
pub struct GroundBinding {
    pub source: GroundSource,
    pub locator: Locator,
    pub predicate: Predicate,
    pub last: Option<Resolved>,
}

impl GroundBinding {
    /// A read over a non-deterministic channel; its gain is discounted.
    pub fn is_net(&self) -> (r: bool)
        ensures
            r == self.source.net_spec(),
    {
        self.source.is_net()
    }

    /// Per-check cost for `VoI`: a file read is cheap, a command/generator spawns.
    pub fn cost(&self) -> (r: Real)
        ensures
            r.bits == self.source.cost_bits(),
    {
        self.source.cost()
    }
}

/// Believed. Needs verification. The addressable, scheduled, verified unit.
#[derive(Debug, Clone, PartialEq)]
pub struct Fact {
    pub id: FactId,
    pub claim: Claim,
    pub value: FactValue,
    pub epistemics: Epistemics,
    pub schedule: ScheduleMeta,
    /// Where the writer says the claim can be checked. Never read until the
    /// control plane binds a ground.
    pub source_hint: Option<GroundBinding>,
    /// Independent groundings of the same proposition.
    /// Empty until the control plane binds one.
    pub grounds: Vec<GroundBinding>,
    pub provenance: Provenance,
}

impl Fact {
    /// Deterministic on-disk path: `facts/<entity>/<relation>.json`.
    pub fn rel_path(&self) -> (r: String)
        ensures
            r@ == path_spec(self.claim.entity.0@, self.claim.relation@),
    {
        path_for(&self.claim)
    }

    /// A fact is checkable once it has at least one grounding.
    pub fn is_checkable(&self) -> (r: bool)
        ensures
            r == (self.grounds@.len() > 0),
    {
        self.grounds.len() > 0
    }

    /// Cheapest ground check, for `VoI` ranking. `None` if unchecked-able.
    pub fn min_check_cost(&self) -> (r: Option<Real>)
        ensures
            match r {
                None => self.grounds@.len() == 0,
                Some(cost) => {
                    &&& exists|i: int|
                        0 <= i < self.grounds@.len() && cost.bits == (
                        #[trigger] self.grounds@[i]).source.cost_bits()
                    &&& forall|i: int|
                        0 <= i < self.grounds@.len() ==> cost.rank() <= (Real {
                            bits: (#[trigger] self.grounds@[i]).source.cost_bits(),
                        }).rank()
                },
            },
    {
        if self.grounds.len() == 0 {
            return None;
        }
        let mut least = self.grounds[0].cost();
        let mut i: usize = 1;
        while i < self.grounds.len()
            invariant
                1 <= i <= self.grounds.len(),
                exists|k: int|
                    0 <= k < i && least.bits == (#[trigger] self.grounds@[k]).source.cost_bits(),
                forall|k: int|
                    0 <= k < i ==> least.rank() <= (Real {
                        bits: (#[trigger] self.grounds@[k]).source.cost_bits(),
                    }).rank(),
            decreases self.grounds.len() - i,
        {
            let cost = self.grounds[i].cost();
            if cost.before(&least) {
                least = cost;
            }
            i = i + 1;
        }
        Some(least)
    }
}

} // verus!
