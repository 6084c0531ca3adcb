//! Where facts are kept, and how bytes are spelled.

use vstd::prelude::*;

verus! {

/// The value of a hexadecimal digit.
pub open spec fn hex_value(c: char) -> int {
    if '0' <= c && c <= '9' {
        c as int - '0' as int
    } else {
        c as int - 'a' as int + 10
    }
}

/// Whether a character stands for itself in a file name.
pub open spec fn stays(c: char) -> bool {
    ('a' <= c && c <= 'z') || ('0' <= c && c <= '9') || c == '-' || c == '_'
}

/// Sixteen digits stand for the numbers below sixteen.
pub proof fn law_hex_digits(n: int)
    requires
        0 <= n < 16,
    ensures
        hex_value(crate::schema::hex_char(n)) == n,
{
}

/// Bytes are spelled by two digits each, the greater one first.
pub proof fn law_bytes_are_spelled_by_two_digits(bytes: Seq<u8>, i: int)
    requires
        0 <= i < bytes.len(),
    ensures
        crate::digest::hex(bytes).len() == 2 * bytes.len(),
        hex_value(crate::digest::hex(bytes)[2 * i]) * 16 + hex_value(
            crate::digest::hex(bytes)[2 * i + 1],
        ) == bytes[i],
    decreases bytes.len(),
{
    crate::digest::lemma_hex(bytes);
    let front = bytes.drop_last();
    crate::digest::lemma_hex(front);
    let last = bytes.last() as int;
    law_hex_digits(last / 16);
    law_hex_digits(last % 16);
    if i < front.len() {
        law_bytes_are_spelled_by_two_digits(front, i);
        assert(crate::digest::hex(bytes)[2 * i] == crate::digest::hex(front)[2 * i]);
        assert(crate::digest::hex(bytes)[2 * i + 1] == crate::digest::hex(front)[2 * i + 1]);
        assert(front[i] == bytes[i]);
    }
}

proof fn lemma_escaped_plain(bytes: Seq<u8>)
    requires
        forall|i: int| 0 <= i < bytes.len() ==> stays(#[trigger] bytes[i] as char),
    ensures
        crate::schema::escaped(bytes).len() == bytes.len(),
        forall|i: int|
            0 <= i < bytes.len() ==> #[trigger] crate::schema::escaped(bytes)[i]
                == bytes[i] as char,
    decreases bytes.len(),
{
    if bytes.len() > 0 {
        let rest = bytes.skip(1);
        assert(stays(bytes[0] as char));
        assert forall|i: int| 0 <= i < rest.len() implies stays(#[trigger] rest[i] as char) by {
            assert(rest[i] == bytes[i + 1]);
        }
        lemma_escaped_plain(rest);
        let all = crate::schema::escaped(bytes);
        assert forall|i: int| 0 <= i < bytes.len() implies #[trigger] all[i]
            == bytes[i] as char by {
            if i > 0 {
                assert(all[i] == crate::schema::escaped(rest)[i - 1]);
            }
        }
    }
}

/// A fact is kept under its entity and its relation. Small letters, digits, dashes and
/// underscores stand for themselves in the names of its directory and its file.
pub proof fn law_plain_keys_name_their_files(entity: Seq<char>, relation: Seq<char>)
    ensures
        crate::schema::path_spec(entity, relation) == seq!['f', 'a', 'c', 't', 's', '/']
            + crate::schema::file_name(entity) + seq!['/'] + crate::schema::file_name(relation)
            + seq!['.', 'j', 's', 'o', 'n'],
        (forall|i: int| 0 <= i < entity.len() ==> stays(#[trigger] entity[i]))
            ==> crate::schema::file_name(entity) == entity,
{
    reveal_strlit("facts/");
    reveal_strlit(".json");
    assert("facts/"@ =~= seq!['f', 'a', 'c', 't', 's', '/']);
    assert(".json"@ =~= seq!['.', 'j', 's', 'o', 'n']);
    if forall|i: int| 0 <= i < entity.len() ==> stays(#[trigger] entity[i]) {
        assert forall|i| 0 <= i < entity.len() implies '\0' <= #[trigger] entity[i]
            <= '\u{7f}' by {
            assert(stays(entity[i]));
        }
        vstd::utf8::is_ascii_chars_encode_utf8(entity);
        let bytes = vstd::utf8::encode_utf8(entity);
        assert forall|i: int| 0 <= i < bytes.len() implies stays(#[trigger] bytes[i] as char)
            && bytes[i] as char == entity[i] by {
            assert(entity[i] as u8 == bytes[i]);
            assert(stays(entity[i]));
        }
        lemma_escaped_plain(bytes);
        assert(crate::schema::escaped(bytes) =~= entity);
    }
}

/// A byte that does not stand for itself is spelled by a percent sign and its two digits.
pub proof fn law_other_bytes_are_escaped(b: u8)
    requires
        !stays(b as char),
    ensures
        ({
            let s = crate::schema::escaped(seq![b]);
            &&& s.len() == 3
            &&& s[0] == '%'
            &&& hex_value(s[1]) * 16 + hex_value(s[2]) == b
        }),
{
    law_hex_digits(b as int / 16);
    law_hex_digits(b as int % 16);
    let rest = seq![b].skip(1);
    assert(rest =~= Seq::<u8>::empty());
    assert(crate::schema::escaped(rest) =~= Seq::<char>::empty());
}

/// Where a fact used to be kept: under its entity and its relation, with an underscore for
/// each character but letters and digits of ASCII, dashes and underscores.
pub proof fn law_old_paths(entity: Seq<char>, relation: Seq<char>, i: int)
    requires
        0 <= i < entity.len(),
    ensures
        crate::schema::legacy_path_spec(entity, relation) == seq!['f', 'a', 'c', 't', 's', '/']
            + crate::schema::sanitized(entity) + seq!['/'] + crate::schema::sanitized(relation)
            + seq!['.', 'j', 's', 'o', 'n'],
        crate::schema::sanitized(entity).len() == entity.len(),
        stays(entity[i]) || ('A' <= entity[i] && entity[i] <= 'Z') ==> crate::schema::sanitized(
            entity,
        )[i] == entity[i],
        !stays(entity[i]) && !('A' <= entity[i] && entity[i] <= 'Z') ==> crate::schema::sanitized(
            entity,
        )[i] == '_',
{
    reveal_strlit("facts/");
    reveal_strlit(".json");
    assert("facts/"@ =~= seq!['f', 'a', 'c', 't', 's', '/']);
    assert(".json"@ =~= seq!['.', 'j', 's', 'o', 'n']);
}

/// The hash of a text is that of its bytes in UTF-8, spelled by two digits each.
pub proof fn law_texts_are_hashed_by_their_bytes(s: Seq<char>)
    ensures
        crate::digest::text_hash(s) == crate::digest::hex(
            crate::digest::blake3_of(vstd::utf8::encode_utf8(s)),
        ),
{
}

} // verus!
