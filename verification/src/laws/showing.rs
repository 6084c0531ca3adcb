//! What people and agents are shown.

use crate::mcp::report::{GroundOut, GroundednessOut};
use crate::mcp::TokenKind;
use crate::schema::{Fact, FactValue, GroundBinding, Groundedness, Outcome};
use crate::store::history::{OpRecord, Operation};
use crate::time::Timestamp;
use vstd::prelude::*;

verus! {

// ---------------------------------------------------------------------------
// Completions
// ---------------------------------------------------------------------------

/// The part of a fact's key that completes an argument: its entity or its relation where
/// the argument is called so, and the whole key otherwise.
pub open spec fn part_for(fact: Fact, arg_name: Seq<char>) -> Seq<char> {
    if arg_name == "entity"@ {
        fact.claim.entity.0@
    } else if arg_name == "relation"@ {
        fact.claim.relation@
    } else {
        super::searching::key_of(fact)
    }
}

/// Whether a fact offers a text for what was typed: it is the part asked for, and holds
/// what was typed in any case.
pub open spec fn fact_offers(
    fact: Fact,
    arg_name: Seq<char>,
    partial: Seq<char>,
    text: Seq<char>,
) -> bool {
    part_for(fact, arg_name) == text && super::text::is_around(
        crate::text::lower_form(text),
        crate::text::lower_form(partial),
    )
}

proof fn lemma_offers(
    facts: Seq<Fact>,
    arg_name: Seq<char>,
    partial: Seq<char>,
    text: Seq<char>,
)
    ensures
        crate::mcp::offers(
            facts,
            crate::mcp::completed_by(arg_name),
            crate::text::lower_form(partial),
        ).contains(text) <==> exists|i: int|
            0 <= i < facts.len() && fact_offers(#[trigger] facts[i], arg_name, partial, text),
    decreases facts.len(),
{
    let what = crate::mcp::completed_by(arg_name);
    let needle = crate::text::lower_form(partial);
    let all = crate::mcp::offers(facts, what, needle);
    if facts.len() > 0 {
        let front = facts.drop_last();
        let before = crate::mcp::offers(front, what, needle);
        let last = facts.last();
        let part = crate::mcp::offer(last, what);
        lemma_offers(front, arg_name, partial, text);
        assert(last.claim.key_spec() == super::searching::key_of(last));
        assert(part == part_for(last, arg_name));
        super::text::law_holding(crate::text::lower_form(part), needle);
        assert(facts[facts.len() - 1] == last);
        if all.contains(text) {
            let k = choose|k: int| 0 <= k < all.len() && all[k] == text;
            if k < before.len() {
                assert(before[k] == text);
                assert(before.contains(text));
                let i = choose|i: int|
                    0 <= i < front.len() && fact_offers(
                        #[trigger] front[i],
                        arg_name,
                        partial,
                        text,
                    );
                assert(facts[i] == front[i]);
            } else {
                assert(fact_offers(facts[facts.len() - 1], arg_name, partial, text));
            }
        }
        if exists|i: int|
            0 <= i < facts.len() && fact_offers(#[trigger] facts[i], arg_name, partial, text) {
            let i = choose|i: int|
                0 <= i < facts.len() && fact_offers(#[trigger] facts[i], arg_name, partial, text);
            if i < front.len() {
                assert(front[i] == facts[i]);
                assert(before.contains(text));
                let k = choose|k: int| 0 <= k < before.len() && before[k] == text;
                assert(all[k] == text);
            } else {
                assert(all[all.len() - 1] == text);
            }
        }
    }
}

/// Whether texts come in order, each once.
pub open spec fn rises(s: Seq<Seq<char>>) -> bool {
    forall|i: int, j: int|
        0 <= i < j < s.len() ==> crate::order::text_le(#[trigger] s[i], #[trigger] s[j]) && s[i]
            != s[j]
}

proof fn lemma_deduped(s: Seq<Seq<char>>, x: Seq<char>)
    requires
        forall|i: int, j: int|
            0 <= i < j < s.len() ==> crate::order::text_le(#[trigger] s[i], #[trigger] s[j]),
    ensures
        rises(crate::mcp::deduped(s)),
        crate::mcp::deduped(s).contains(x) <==> s.contains(x),
        s.len() > 0 ==> crate::mcp::deduped(s).len() > 0 && crate::mcp::deduped(s).last()
            == s.last(),
    decreases s.len(),
{
    if s.len() > 0 {
        let front = s.drop_last();
        let before = crate::mcp::deduped(front);
        let all = crate::mcp::deduped(s);
        assert forall|i: int, j: int| 0 <= i < j < front.len() implies crate::order::text_le(
            #[trigger] front[i],
            #[trigger] front[j],
        ) by {
            assert(front[i] == s[i] && front[j] == s[j]);
        }
        lemma_deduped(front, x);
        crate::order::lemma_text_order();
        let r = crate::order::by_text();
        if front.len() > 0 {
            assert(front.last() == s[s.len() - 2]);
            assert(crate::order::text_le(s[s.len() - 2], s[s.len() - 1]));
        }
        assert forall|i: int, j: int| 0 <= i < j < all.len() implies crate::order::text_le(
            #[trigger] all[i],
            #[trigger] all[j],
        ) && all[i] != all[j] by {
            assert(all[i] == before[i]);
            if j < before.len() {
                assert(all[j] == before[j]);
            } else {
                let m = before.len() - 1;
                assert(r(before[m], s.last()));
                if i < m {
                    assert(r(before[i], before[m]));
                    assert(r(before[i], s.last()));
                    if before[i] == s.last() {
                        assert(r(before[m], before[i]));
                    }
                }
            }
        }
        assert(s[s.len() - 1] == s.last());
        if s.contains(x) {
            let k = choose|k: int| 0 <= k < s.len() && s[k] == x;
            if k < front.len() {
                assert(front[k] == x);
                assert(before.contains(x));
                let m = choose|m: int| 0 <= m < before.len() && before[m] == x;
                assert(all[m] == x);
            } else {
                assert(all[all.len() - 1] == x);
            }
        }
        if all.contains(x) {
            let k = choose|k: int| 0 <= k < all.len() && all[k] == x;
            if k < before.len() {
                assert(before[k] == x);
                assert(before.contains(x));
                let m = choose|m: int| 0 <= m < front.len() && front[m] == x;
                assert(s[m] == x);
            }
        }
    }
}

/// What is suggested is what some fact offers, in order, each once, and no more than a
/// hundred; what is offered and not suggested comes behind a hundred others.
pub proof fn law_completions_come_from_the_facts(
    facts: Seq<Fact>,
    arg_name: Seq<char>,
    partial: Seq<char>,
    text: Seq<char>,
)
    ensures
        ({
            let shown = crate::mcp::completions(facts, arg_name, partial);
            let offered = exists|i: int|
                0 <= i < facts.len() && fact_offers(#[trigger] facts[i], arg_name, partial, text);
            &&& shown.len() <= 100
            &&& rises(shown)
            &&& shown.contains(text) ==> offered
            &&& offered && !shown.contains(text) ==> shown.len() == 100 && forall|k: int|
                0 <= k < shown.len() ==> crate::order::text_le(#[trigger] shown[k], text)
        }),
{
    let all = crate::mcp::offers(
        facts,
        crate::mcp::completed_by(arg_name),
        crate::text::lower_form(partial),
    );
    let order = crate::order::in_order(all);
    let each = crate::mcp::deduped(order);
    let shown = crate::mcp::completions(facts, arg_name, partial);
    lemma_offers(facts, arg_name, partial, text);
    crate::order::lemma_in_order(all);
    assert forall|i: int, j: int| 0 <= i < j < order.len() implies crate::order::text_le(
        #[trigger] order[i],
        #[trigger] order[j],
    ) by {
        let r = crate::order::by_text();
        assert(r(order[i], order[j]));
    }
    lemma_deduped(order, text);
    all.to_multiset_ensures();
    order.to_multiset_ensures();
    assert(all.contains(text) <==> all.to_multiset().count(text) > 0);
    assert(order.contains(text) <==> order.to_multiset().count(text) > 0);
    assert forall|k: int| 0 <= k < shown.len() implies #[trigger] shown[k] == each[k] by {}
    assert forall|i: int, j: int| 0 <= i < j < shown.len() implies crate::order::text_le(
        #[trigger] shown[i],
        #[trigger] shown[j],
    ) && shown[i] != shown[j] by {
        assert(shown[i] == each[i] && shown[j] == each[j]);
    }
    if shown.contains(text) {
        let k = choose|k: int| 0 <= k < shown.len() && shown[k] == text;
        assert(each[k] == text);
        assert(each.contains(text));
    }
    if each.contains(text) && !shown.contains(text) {
        let m = choose|m: int| 0 <= m < each.len() && each[m] == text;
        if m < shown.len() {
            assert(shown[m] == text);
        }
        assert forall|k: int| 0 <= k < shown.len() implies crate::order::text_le(
            #[trigger] shown[k],
            text,
        ) by {
            assert(shown[k] == each[k]);
            assert(crate::order::text_le(each[k], each[m]));
        }
    }
}

// ---------------------------------------------------------------------------
// Words
// ---------------------------------------------------------------------------

/// A text is taken apart into its words: white space before the first is skipped, and each
/// is followed by white space or nothing.
pub proof fn law_texts_fall_into_words(a: Seq<char>, w: Seq<char>, c: char, rest: Seq<char>)
    requires
        super::text::is_blank(a),
        w.len() > 0,
        forall|i: int| 0 <= i < w.len() ==> !crate::text::is_space(#[trigger] w[i]),
        crate::text::is_space(c),
    ensures
        crate::mcp::tokens(TokenKind::Word, a).len() == 0,
        crate::mcp::tokens(TokenKind::Word, a + w) == seq![w],
        crate::mcp::tokens(TokenKind::Word, a + w + seq![c] + rest) == seq![w]
            + crate::mcp::tokens(TokenKind::Word, seq![c] + rest),
    decreases a.len(),
{
    let kind = TokenKind::Word;
    let one = a + w;
    let all = a + w + seq![c] + rest;
    if a.len() > 0 {
        let t = a.skip(1);
        assert(crate::text::is_space(a[0]));
        assert forall|i: int| 0 <= i < t.len() implies crate::text::is_space(#[trigger] t[i]) by {
            assert(t[i] == a[i + 1]);
        }
        law_texts_fall_into_words(t, w, c, rest);
        assert(one[0] == a[0] && all[0] == a[0]);
        assert(one.skip(1) =~= t + w);
        assert(all.skip(1) =~= t + w + seq![c] + rest);
    } else {
        let none = Seq::<char>::empty();
        assert(one =~= w);
        assert(all =~= w + (seq![c] + rest));
        lemma_run(w, none);
        lemma_run(w, seq![c] + rest);
        assert(w + none =~= w);
        assert(w.take(w.len() as int) =~= w);
        assert(w.skip(w.len() as int) =~= none);
        assert(crate::mcp::tokens(kind, none) =~= Seq::<Seq<char>>::empty());
        assert(all.take(w.len() as int) =~= w);
        assert(all.skip(w.len() as int) =~= seq![c] + rest);
        assert(seq![w] + Seq::<Seq<char>>::empty() =~= seq![w]);
    }
}

proof fn lemma_run(w: Seq<char>, rest: Seq<char>)
    requires
        forall|i: int| 0 <= i < w.len() ==> !crate::text::is_space(#[trigger] w[i]),
        rest.len() > 0 ==> crate::text::is_space(rest[0]),
    ensures
        crate::mcp::token_run(TokenKind::Word, w + rest) == w.len(),
    decreases w.len(),
{
    let s = w + rest;
    if w.len() > 0 {
        let t = w.skip(1);
        assert(s[0] == w[0]);
        assert(s.skip(1) =~= t + rest);
        assert forall|i: int| 0 <= i < t.len() implies !crate::text::is_space(#[trigger] t[i]) by {
            assert(t[i] == w[i + 1]);
        }
        lemma_run(t, rest);
    } else {
        assert(s =~= rest);
    }
}

// ---------------------------------------------------------------------------
// Texts
// ---------------------------------------------------------------------------

/// A text that fits is shown whole; one that does not is cut to fit, with an ellipsis at
/// its end.
pub proof fn law_long_texts_are_cut(s: Seq<char>, max: int)
    requires
        max >= 1,
    ensures
        s.len() <= max ==> crate::mcp::report::truncated(s, max) == s,
        s.len() > max ==> {
            let cut = crate::mcp::report::truncated(s, max);
            &&& cut.len() == max
            &&& cut.last() == '\u{2026}'
            &&& forall|i: int| 0 <= i < max - 1 ==> #[trigger] cut[i] == s[i]
        },
{
}

/// The name of a generator or handler is shown with the first six characters of its hash.
pub proof fn law_hashes_are_shown_short(name: Seq<char>, hash: Seq<char>)
    requires
        crate::schema::is_ascii_text(hash),
    ensures
        hash.len() >= 6 ==> crate::schema::name_at_hash(name, hash) == name + seq!['@'] + hash.take(
            6,
        ),
        hash.len() < 6 ==> crate::schema::name_at_hash(name, hash) == name + seq!['@'] + hash,
{
    assert forall|i| 0 <= i < hash.len() implies '\0' <= #[trigger] hash[i] <= '\u{7f}' by {
        let c = hash[i];
        vstd::utf8::char_is_scalar(c);
        assert((hash[i] as u32) < 128);
        vstd::utf8::char_u32_cast(c, c as u32);
    }
    let n = if hash.len() < 6 { hash.len() as int } else { 6 };
    let short = hash.take(n);
    assert forall|i| 0 <= i < short.len() implies '\0' <= #[trigger] short[i] <= '\u{7f}' by {
        assert(short[i] == hash[i]);
    }
    vstd::utf8::is_ascii_chars_encode_utf8(hash);
    vstd::utf8::is_ascii_chars_encode_utf8(short);
    assert(vstd::utf8::encode_utf8(hash).take(n) =~= vstd::utf8::encode_utf8(short));
    vstd::utf8::encode_utf8_decode_utf8(short);
    if hash.len() < 6 {
        assert(short =~= hash);
    }
}

/// What an address asks for: the facts in conflict, the stale ones, or one fact or its
/// history by what follows.
pub proof fn law_addresses_ask(key: Seq<char>)
    ensures
        crate::mcp::report::asked("ken://conflicts"@) is Conflicts,
        crate::mcp::report::asked("ken://stale"@) is Stale,
        crate::mcp::report::asked("ken://fact/"@ + key) == crate::mcp::report::Asked::Fact(key),
        crate::mcp::report::asked("ken://why/"@ + key) == crate::mcp::report::Asked::Why(key),
        !crate::text::starts_with(key, "ken://"@) ==> crate::mcp::report::asked(key) is Unknown,
{
    reveal_strlit("ken://conflicts");
    reveal_strlit("ken://stale");
    reveal_strlit("ken://fact/");
    reveal_strlit("ken://why/");
    reveal_strlit("ken://");
    let fact = "ken://fact/"@ + key;
    let why = "ken://why/"@ + key;
    assert(fact[6] == 'f' && why[6] == 'w');
    assert("ken://conflicts"@[6] == 'c' && "ken://stale"@[6] == 's');
    assert(fact.subrange(0, 11) =~= "ken://fact/"@);
    assert(why.subrange(0, 10) =~= "ken://why/"@);
    assert(fact.skip(11) =~= key);
    assert(why.skip(10) =~= key);
    if crate::text::starts_with(why, "ken://fact/"@) {
        assert(why.subrange(0, 11)[6] == 'w');
    }
    assert("ken://conflicts"@.subrange(0, 6) =~= "ken://"@);
    assert("ken://stale"@.subrange(0, 6) =~= "ken://"@);
    if crate::text::starts_with(key, "ken://fact/"@) {
        assert(key.subrange(0, 6) =~= key.subrange(0, 11).subrange(0, 6));
        assert(key.subrange(0, 6) =~= "ken://"@);
    }
    if crate::text::starts_with(key, "ken://why/"@) {
        assert(key.subrange(0, 6) =~= key.subrange(0, 10).subrange(0, 6));
        assert(key.subrange(0, 6) =~= "ken://"@);
    }
}

/// A value is handed out as JSON: a single one as its compact text, a set as a verifier
/// gets it.
pub proof fn law_values_are_handed_out_as_json(value: FactValue)
    ensures
        value matches FactValue::Scalar { value: json } ==> crate::mcp::report::value_text(value)
            == json.text@,
        value is Elements ==> crate::mcp::report::value_text(value) == value.env_spec(),
{
    reveal_strlit(",");
    assert(","@ =~= seq![',']);
}

// ---------------------------------------------------------------------------
// Checks
// ---------------------------------------------------------------------------

/// The outcome that is read off the log entry of a check is the outcome of the check.
pub proof fn law_logged_outcomes_read_back(
    operation: Operation,
    record: OpRecord,
    outcome: Outcome,
)
    requires
        crate::store::history::shows(operation, record),
        record.tag@ == "GroundCheck:"@ + super::naming::outcome_name(outcome),
    ensures
        crate::mcp::report::outcome_in(operation.description@) == super::naming::outcome_name(
            outcome,
        ),
        crate::text::holds_text(operation.description@, "[GroundCheck"@),
{
    let name = super::naming::outcome_name(outcome);
    let s = operation.description@;
    reveal_strlit("GroundCheck:");
    reveal_strlit("[GroundCheck");
    reveal_strlit("] ");
    lemma_outcome_names(outcome);
    let behind = name + "] "@ + record.detail@;
    assert(s =~= seq!['['] + "GroundCheck:"@ + behind);
    assert forall|i: int| 0 <= i < 12 implies #[trigger] s[i] != ':' by {
        if i > 0 {
            assert(s[i] == "GroundCheck:"@[i - 1]);
        }
    }
    assert(s[12] == ':');
    crate::text::lemma_first_at_is(s, ':', 12);
    assert(s.skip(13) =~= behind);
    let cut = crate::mcp::report::before_char(behind, ':');
    crate::text::lemma_first_at(behind, ':');
    let n = crate::text::first_at(behind, ':');
    if n < name.len() {
        assert(behind[n] == name[n]);
        assert(name.contains(name[n]));
    } else if n == name.len() {
        assert(behind[n] == ']');
    }
    assert(n > name.len());
    assert(cut =~= behind.take(n));
    assert forall|i: int| 0 <= i < name.len() implies #[trigger] cut[i] != ']' by {
        assert(cut[i] == name[i]);
        assert(name.contains(name[i]));
    }
    assert(cut[name.len() as int] == ']');
    crate::text::lemma_first_at_is(cut, ']', name.len() as int);
    assert(cut.take(name.len() as int) =~= name);
    assert(s.subrange(0, 12) =~= "[GroundCheck"@);
    assert(crate::text::occurs_at(s, "[GroundCheck"@, 0));
}

proof fn lemma_outcome_names(outcome: Outcome)
    ensures
        !super::naming::outcome_name(outcome).contains(':'),
        !super::naming::outcome_name(outcome).contains(']'),
{
    reveal_strlit("confirmed");
    reveal_strlit("refuted");
    reveal_strlit("errored");
    reveal_strlit("inconclusive");
}

/// The ground that is shown to confirm a fact confirmed it when it was last checked, and
/// none that did so was checked later. One is shown wherever one did.
pub proof fn law_the_newest_confirmation_is_shown(grounds: Seq<GroundBinding>, i: int)
    ensures
        ({
            let at = crate::cli::last_confirming(grounds);
            let confirms = 0 <= i < grounds.len() && (grounds[i].last matches Some(last)
                && last.outcome == Outcome::Confirmed);
            &&& -1 <= at < grounds.len()
            &&& at >= 0 ==> (grounds[at].last matches Some(last) && last.outcome
                == Outcome::Confirmed)
            &&& confirms ==> at >= 0 && !grounds[i].last->Some_0.at.later_than(
                &grounds[at].last->Some_0.at,
            )
        }),
    decreases grounds.len(),
{
    if grounds.len() > 0 {
        let front = grounds.drop_last();
        law_the_newest_confirmation_is_shown(front, i);
        let before = crate::cli::last_confirming(front);
        if before >= 0 {
            assert(front[before] == grounds[before]);
        }
        if 0 <= i < front.len() {
            assert(front[i] == grounds[i]);
        }
    }
}

proof fn lemma_refuted(grounds: Seq<GroundBinding>)
    ensures
        crate::mcp::report::refuted_texts(grounds).len() > 0 <==> exists|i: int|
            0 <= i < grounds.len() && ((#[trigger] grounds[i]).last matches Some(last)
                && last.outcome == Outcome::Refuted),
    decreases grounds.len(),
{
    if grounds.len() > 0 {
        let front = grounds.drop_last();
        lemma_refuted(front);
        assert(grounds[grounds.len() - 1] == grounds.last());
        if exists|i: int|
            0 <= i < front.len() && ((#[trigger] front[i]).last matches Some(last) && last.outcome
                == Outcome::Refuted) {
            let i = choose|i: int|
                0 <= i < front.len() && ((#[trigger] front[i]).last matches Some(last)
                    && last.outcome == Outcome::Refuted);
            assert(grounds[i] == front[i]);
        }
        if exists|i: int|
            0 <= i < grounds.len() && ((#[trigger] grounds[i]).last matches Some(last)
                && last.outcome == Outcome::Refuted) {
            let i = choose|i: int|
                0 <= i < grounds.len() && ((#[trigger] grounds[i]).last matches Some(last)
                    && last.outcome == Outcome::Refuted);
            if i < front.len() {
                assert(front[i] == grounds[i]);
            }
        }
    }
}

/// A fact is shown as distrusted where some ground refutes it and it is not in conflict.
pub proof fn law_half_refuted_facts_are_distrusted(facts: Seq<Fact>, i: int)
    ensures
        crate::mcp::report::is_distrusted(facts)(i) <==> !(
        facts[i].epistemics.groundedness is Conflicted) && exists|k: int|
            0 <= k < facts[i].grounds@.len() && ((#[trigger] facts[i].grounds@[k]).last matches Some(
                last,
            ) && last.outcome == Outcome::Refuted),
        crate::mcp::report::is_conflicted(facts)(i) <==> facts[i].epistemics.groundedness
            is Conflicted,
{
    lemma_refuted(facts[i].grounds@);
}

/// What is shown of a belief names its state, and of a verdict who made it and when.
pub proof fn law_beliefs_are_shown(out: GroundednessOut, g: Groundedness)
    requires
        crate::mcp::report::shows_belief(out, g),
    ensures
        out.state@ == super::searching::state_name(g),
        g matches Groundedness::Verified { at, by } ==> (out.verifier matches Some(v) && v@ == by.0@)
            && (out.at matches Some(t) && t@ == at.text()),
        g matches Groundedness::Refuted { at, by } ==> (out.verifier matches Some(v) && v@ == by.0@)
            && (out.at matches Some(t) && t@ == at.text()),
        g is Ungrounded || g is Conflicted ==> out.verifier is None && out.at is None,
        g matches Groundedness::Conflicted { verifiers } ==> (out.verifiers matches Some(v)
            && v@.len() == verifiers@.len()),
        !(g is Conflicted) ==> out.verifiers is None,
{
    if let Groundedness::Conflicted { verifiers } = g {
        let v = out.verifiers->Some_0;
        assert(crate::text::texts(v@).len() == v@.len());
        assert(crate::store::apply::hashes(verifiers@).len() == verifiers@.len());
    }
}

/// What is shown of a ground tells its kind and source, and of its last check the outcome
/// and the time.
pub proof fn law_grounds_are_shown(out: GroundOut, ground: GroundBinding, shown: Seq<char>)
    requires
        crate::mcp::report::shows_ground(out, ground, shown),
    ensures
        out.kind@ == ground.source.kind_spec(),
        out.source@ == crate::locator::ground_text(ground),
        ground.last matches Some(last) ==> (out.last_outcome matches Some(o) && o@
            == super::naming::outcome_name(last.outcome)) && (out.last_at matches Some(t) && t@
            == last.at.text()),
        ground.last is None ==> out.last_outcome is None && out.last_at is None,
{
}

/// What is said of a fact's standing starts with the name of its state.
pub proof fn law_standings_are_said(fact: Fact, now: Timestamp)
    ensures
        crate::text::starts_with(
            crate::cli::grounded_text(fact, now),
            super::searching::state_name(fact.epistemics.groundedness),
        ),
{
    reveal_strlit("ungrounded");
    reveal_strlit("ungrounded (");
    reveal_strlit("verified");
    reveal_strlit("verified ");
    reveal_strlit("refuted");
    reveal_strlit("refuted ");
    reveal_strlit("conflicted");
    reveal_strlit("conflicted (");
    let s = crate::cli::grounded_text(fact, now);
    let name = super::searching::state_name(fact.epistemics.groundedness);
    assert(s.subrange(0, name.len() as int) =~= name);
}

/// When a fact falls due is said as how long it is until then; what is due already is
/// overdue, and what never falls due is said to be so.
pub proof fn law_due_times_are_said(moment: Timestamp, now: Timestamp)
    ensures
        crate::cli::due_said(None, now) == "never"@,
        moment.total() <= now.total() ==> crate::cli::due_said(Some(moment), now) == "overdue"@,
        moment.total() >= now.total() + 1_000_000_000 ==> crate::cli::due_said(Some(moment), now)
            == "in "@ + crate::cli::human(crate::cli::seconds_until(now, moment)),
{
}

/// The checks of a key are the log entries of checks that name it, the oldest first.
pub proof fn law_checks_are_shown_oldest_first(log: Seq<Operation>, key: Seq<char>, i: int)
    requires
        0 <= i < log.len(),
    ensures
        ({
            let places = crate::mcp::report::checks_of(log, key);
            let entry = log[log.len() - 1 - i];
            &&& places.contains(i) <==> super::text::is_around(
                entry.description@,
                "[GroundCheck"@,
            ) && super::text::is_around(entry.description@, key)
            &&& forall|a: int, b: int|
                0 <= a < b < places.len() ==> #[trigger] places[a] < #[trigger] places[b]
            &&& forall|a: int| 0 <= a < places.len() ==> 0 <= #[trigger] places[a] < log.len()
        }),
{
    let test = |i: int| crate::mcp::report::is_check_of(log[log.len() - 1 - i], key);
    crate::rank::lemma_picked(log.len(), test);
    let places = crate::mcp::report::checks_of(log, key);
    let entry = log[log.len() - 1 - i];
    super::text::law_holding(entry.description@, "[GroundCheck"@);
    super::text::law_holding(entry.description@, key);
    assert(test(i) == crate::mcp::report::is_check_of(entry, key));
    if places.contains(i) {
        let k = choose|k: int| 0 <= k < places.len() && places[k] == i;
        assert(test(places[k]));
    }
}

/// Where a fact came from is told by its value, its ingest, each check and each ground, and
/// a last line where its grounds disagree.
pub proof fn law_provenance_is_told_line_by_line(
    fact: Fact,
    key: Seq<char>,
    log: Seq<Operation>,
    day: Seq<char>,
    confidence: Seq<char>,
    shown: Seq<String>,
    i: int,
)
    ensures
        ({
            let lines = crate::cli::why_said(fact, key, log, day, confidence, shown);
            let checks = crate::mcp::report::checks_of(log, key).len();
            let grounds = fact.grounds@.len();
            let conflict = fact.epistemics.groundedness is Conflicted;
            &&& lines.len() == 2 + checks + grounds + if conflict { 1int } else { 0int }
            &&& lines[0] == key + " = "@ + fact.value.render_spec()
            &&& 0 <= i < grounds ==> lines[2 + checks + i] == "  ground     "@
                + crate::cli::ground_said(fact.grounds@[i], shown[i]@)
        }),
{
}

} // verus!
