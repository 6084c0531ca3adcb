//! The data plane that agents see: recall, search and ingest, and nothing that
//! could verify, override or grant.

use crate::order::sorted;
use crate::rank::ranked;
use crate::schema::Fact;
use crate::text::{alphanumeric, chars_of, contains_text, copy_all};
use crate::text::{join, lower, same, space, split_first, string_of};
use vstd::prelude::*;

pub mod ingest;
pub mod report;

verus! {

// ---------------------------------------------------------------------------
// Tokens
// ---------------------------------------------------------------------------

/// What a token is made of.
#[derive(Debug, Clone, Copy, PartialEq, Eq, Structural)]
pub enum TokenKind {
    /// Anything but white space.
    Word,
    /// Letters and numbers.
    Alphanumeric,
}

/// Whether a character belongs to tokens of a kind.
pub open spec fn is_kept(kind: TokenKind, c: char) -> bool {
    match kind {
        TokenKind::Word => !crate::text::is_space(c),
        TokenKind::Alphanumeric => crate::text::is_alphanumeric(c),
    }
}

/// How long the token is that a text starts with.
pub open spec fn token_run(kind: TokenKind, s: Seq<char>) -> nat
    decreases s.len(),
{
    if s.len() > 0 && is_kept(kind, s[0]) {
        1 + token_run(kind, s.skip(1))
    } else {
        0
    }
}

/// The tokens of a text: its longest runs of characters that belong to them.
pub open spec fn tokens(kind: TokenKind, s: Seq<char>) -> Seq<Seq<char>>
    decreases s.len(),
{
    let n = token_run(kind, s) as int;
    if s.len() == 0 {
        Seq::empty()
    } else if n == 0 {
        tokens(kind, s.skip(1))
    } else {
        proof {
            lemma_token_run(kind, s);
        }
        seq![s.take(n)] + tokens(kind, s.skip(n))
    }
}

/// A token is no longer than its text.
pub proof fn lemma_token_run(kind: TokenKind, s: Seq<char>)
    ensures
        token_run(kind, s) <= s.len(),
    decreases s.len(),
{
    if s.len() > 0 && is_kept(kind, s[0]) {
        lemma_token_run(kind, s.skip(1));
    }
}

fn kept(kind: TokenKind, c: char) -> (r: bool)
    ensures
        r == is_kept(kind, c),
{
    match kind {
        TokenKind::Word => !space(c),
        TokenKind::Alphanumeric => alphanumeric(c),
    }
}

/// The tokens of a text.
pub fn tokens_of(kind: TokenKind, s: &str) -> (r: Vec<String>)
    ensures
        crate::text::texts(r@) == tokens(kind, s@),
{
    let v = chars_of(s);
    let mut out: Vec<String> = Vec::new();
    let mut at: usize = 0;
    assert(v@.skip(0) =~= v@);
    assert(crate::text::texts(out@) + tokens(kind, v@) =~= tokens(kind, s@));
    while at < v.len()
        invariant
            at <= v.len(),
            v@ == s@,
            crate::text::texts(out@) + tokens(kind, v@.skip(at as int)) == tokens(kind, s@),
        decreases v.len() - at,
    {
        let ghost rest = v@.skip(at as int);
        let mut end: usize = at;
        while end < v.len() && kept(kind, v[end])
            invariant
                at <= end <= v.len(),
                rest == v@.skip(at as int),
                end - at + token_run(kind, v@.skip(end as int)) == token_run(kind, rest),
            decreases v.len() - end,
        {
            assert(v@.skip(end as int).skip(1) =~= v@.skip(end + 1));
            end = end + 1;
        }
        if end == at {
            assert(rest.skip(1) =~= v@.skip(at + 1));
            at = at + 1;
        } else {
            let ghost before = crate::text::texts(out@);
            assert(v@.subrange(at as int, end as int) =~= rest.take(end - at));
            assert(rest.skip(end - at) =~= v@.skip(end as int));
            out.push(string_of(&v, at, end));
            assert(crate::text::texts(out@) =~= before.push(rest.take(end - at)));
            assert(crate::text::texts(out@) + tokens(kind, v@.skip(end as int)) =~= before + (seq![
                rest.take(end - at),
            ] + tokens(kind, v@.skip(end as int))));
            at = end;
        }
    }
    assert(tokens(kind, v@.skip(at as int)) =~= Seq::<Seq<char>>::empty());
    assert(crate::text::texts(out@) + Seq::<Seq<char>>::empty() =~= crate::text::texts(out@));
    out
}

/// The tokens of a free-text query.
pub open spec fn query_spec(query: Seq<char>) -> Seq<Seq<char>> {
    tokens(TokenKind::Word, crate::text::lower_form(query))
}

/// Lowercase whitespace tokens of a free-text query.
pub fn query_tokens(query: &str) -> (r: Vec<String>)
    ensures
        crate::text::texts(r@) == query_spec(query@),
{
    tokens_of(TokenKind::Word, lower(query).as_str())
}

/// How many of some tokens a text holds.
pub open spec fn held(words: Seq<Seq<char>>, text: Seq<char>) -> nat
    decreases words.len(),
{
    if words.len() == 0 {
        0
    } else {
        held(words.drop_last(), text) + if crate::text::holds_text(text, words.last()) {
            1nat
        } else {
            0nat
        }
    }
}

fn count_held(words: &Vec<String>, text: &str) -> (r: usize)
    ensures
        r == held(crate::text::texts(words@), text@),
        r <= words@.len(),
{
    let ghost all = crate::text::texts(words@);
    let mut n: usize = 0;
    let mut i: usize = 0;
    assert(all.take(0) =~= Seq::<Seq<char>>::empty());
    while i < words.len()
        invariant
            i <= words.len(),
            n <= i,
            all == crate::text::texts(words@),
            n == held(all.take(i as int), text@),
        decreases words.len() - i,
    {
        assert(all.take(i + 1).drop_last() =~= all.take(i as int));
        assert(all.take(i + 1).last() == words@[i as int]@);
        if contains_text(text, words[i].as_str()) {
            n = n + 1;
        }
        i = i + 1;
    }
    assert(all.take(i as int) =~= all);
    n
}

/// What a query is matched against: key and value, in lower case.
pub open spec fn haystack(key: Seq<char>, value: Seq<char>) -> Seq<char> {
    crate::text::lower_form(key) + seq![' '] + crate::text::lower_form(value)
}

/// How many query tokens appear, as substrings, in a fact's key or value.
pub fn hit_score(key: &str, value: &str, tokens: &Vec<String>) -> (r: usize)
    ensures
        r == held(crate::text::texts(tokens@), haystack(key@, value@)),
        r <= tokens@.len(),
{
    let mut hay = lower(key);
    hay.push(' ');
    hay.append(lower(value).as_str());
    assert(hay@ =~= haystack(key@, value@));
    count_held(tokens, hay.as_str())
}

/// How many alphanumeric tokens of a query appear in a key.
pub open spec fn overlap_spec(key: Seq<char>, query: Seq<char>) -> nat {
    held(
        tokens(TokenKind::Alphanumeric, crate::text::lower_form(query)),
        crate::text::lower_form(key),
    )
}

/// How many alphanumeric tokens of `query` appear in a candidate key. Drives
/// the "did you mean" suggestions when a recall misses.
pub fn key_overlap(candidate_key: &str, query: &str) -> (r: usize)
    ensures
        r == overlap_spec(candidate_key@, query@),
{
    let words = tokens_of(TokenKind::Alphanumeric, lower(query).as_str());
    count_held(&words, lower(candidate_key).as_str())
}

// ---------------------------------------------------------------------------
// Searching
// ---------------------------------------------------------------------------

/// What to recall.
#[derive(Debug, Clone, PartialEq, Eq)]
pub struct RecallParams {
    /// `entity.relation`
    pub key: String,
}

/// What to search for.
#[derive(Debug, Clone, PartialEq, Eq)]
pub struct SearchParams {
    pub query: String,
    pub entity: Option<String>,
    pub relation: Option<String>,
    /// ungrounded | verified | refuted | conflicted
    pub grounded: Option<String>,
}

/// Whether a filter is not set, or names a text.
pub open spec fn filter_takes(filter: Option<String>, text: Seq<char>) -> bool {
    filter matches Some(wanted) ==> wanted@ == text
}

/// How well a fact matches a query.
pub open spec fn score_spec(fact: Fact, words: Seq<Seq<char>>) -> nat {
    held(words, haystack(fact.claim.key_spec(), fact.value.render_spec()))
}

/// Whether a fact is a match.
pub open spec fn is_match(fact: Fact, params: SearchParams) -> bool {
    let words = query_spec(params.query@);
    &&& filter_takes(params.entity, fact.claim.entity.0@)
    &&& filter_takes(params.relation, fact.claim.relation@)
    &&& params.grounded matches Some(state) ==> fact.epistemics.groundedness.label_spec()
        == crate::text::lower_form(state@)
    &&& words.len() == 0 || score_spec(fact, words) > 0
}

/// The places of the facts that match, in the order of the facts.
pub open spec fn matches_spec(facts: Seq<Fact>, params: SearchParams) -> Seq<int> {
    crate::rank::picked(facts.len(), |i: int| is_match(facts[i], params))
}

/// How many tokens each match matches; none are counted where the query has
/// none.
pub open spec fn match_scores(facts: Seq<Fact>, params: SearchParams) -> Seq<int> {
    let words = query_spec(params.query@);
    matches_spec(facts, params).map_values(
        |i: int|
            if words.len() == 0 {
                0int
            } else {
                score_spec(facts[i], words) as int
            },
    )
}

/// The places of the facts that match, best first.
pub open spec fn search_spec(facts: Seq<Fact>, params: SearchParams) -> Seq<int> {
    let found = matches_spec(facts, params);
    crate::rank::best_first(match_scores(facts, params)).map_values(|k: int| found[k])
}

pub(crate) fn takes(filter: &Option<String>, text: &str) -> (r: bool)
    ensures
        r == filter_takes(*filter, text@),
{
    match filter {
        Some(wanted) => same(wanted.as_str(), text),
        None => true,
    }
}

/// Finds facts by entity, relation, text, or groundedness; returns their places,
/// ranked by how many query tokens a fact matches. The order of the facts breaks
/// ties. Tokenizing is what lets a broad query ("free orders webhook") match
/// facts that no contiguous substring would.
pub fn search(facts: &Vec<Fact>, params: &SearchParams) -> (r: Vec<usize>)
    ensures
        crate::rank::indices(r@) == search_spec(facts@, *params),
        forall|i: int| 0 <= i < r@.len() ==> #[trigger] r@[i] < facts@.len(),
{
    let words = query_tokens(params.query.as_str());
    let ghost ws = query_spec(params.query@);
    let ghost test = |i: int| is_match(facts@[i], *params);
    let state = match &params.grounded {
        Some(state) => Some(lower(state.as_str())),
        None => None,
    };
    let mut found: Vec<usize> = Vec::new();
    let mut scores: Vec<i128> = Vec::new();
    let mut i: usize = 0;
    assert(ws.len() == words@.len());
    while i < facts.len()
        invariant
            i <= facts.len(),
            ws == query_spec(params.query@),
            ws == crate::text::texts(words@),
            test == (|i: int| is_match(facts@[i], *params)),
            match params.grounded {
                Some(g) => state matches Some(s) && s@ == crate::text::lower_form(g@),
                None => state is None,
            },
            crate::rank::indices(found@) == crate::rank::picked(i as nat, test),
            scores@.len() == found@.len(),
            forall|k: int| 0 <= k < found@.len() ==> #[trigger] found@[k] < i,
            forall|k: int|
                0 <= k < found@.len() ==> #[trigger] scores@[k] == if ws.len() == 0 {
                    0int
                } else {
                    score_spec(facts@[found@[k] as int], ws) as int
                },
        decreases facts.len() - i,
    {
        let fact = &facts[i];
        let ghost before = found@;
        assert(ws.len() == words@.len());
        let right_state = match &state {
            Some(s) => same(fact.epistemics.groundedness.label(), s.as_str()),
            None => true,
        };
        let matched: usize = if words.len() == 0 {
            0
        } else {
            hit_score(fact.claim.key().as_str(), fact.value.render().as_str(), &words)
        };
        if takes(&params.entity, fact.claim.entity.0.as_str()) && takes(
            &params.relation,
            fact.claim.relation.as_str(),
        ) && right_state && (words.len() == 0 || matched > 0) {
            assert(test(i as int));
            found.push(i);
            scores.push(matched as i128);
            assert(crate::rank::indices(found@) =~= crate::rank::indices(before).push(i as int));
        } else {
            assert(!test(i as int));
        }
        i = i + 1;
    }
    assert(crate::rank::ints(scores@) =~= match_scores(facts@, *params));
    let order = ranked(&scores);
    let mut out: Vec<usize> = Vec::new();
    let mut k: usize = 0;
    while k < order.len()
        invariant
            k <= order.len(),
            order@.len() == found@.len(),
            forall|j: int| 0 <= j < order@.len() ==> #[trigger] order@[j] < found@.len(),
            forall|j: int| 0 <= j < found@.len() ==> #[trigger] found@[j] < facts@.len(),
            out@.len() == k,
            forall|j: int| 0 <= j < k ==> #[trigger] out@[j] == found@[order@[j] as int],
            forall|j: int| 0 <= j < k ==> #[trigger] out@[j] < facts@.len(),
        decreases order.len() - k,
    {
        assert(order@[k as int] < found@.len());
        out.push(found[order[k]]);
        k = k + 1;
    }
    proof {
        let best = crate::rank::best_first(match_scores(facts@, *params));
        let m = matches_spec(facts@, *params);
        assert(m == crate::rank::indices(found@));
        assert(crate::rank::indices(order@) == best);
        let a = crate::rank::indices(out@);
        let b = search_spec(facts@, *params);
        assert forall|j: int| 0 <= j < a.len() implies a[j] == b[j] by {
            assert(crate::rank::indices(order@)[j] == order@[j]);
            assert(best[j] == order@[j]);
            assert(m[order@[j] as int] == found@[order@[j] as int]);
            assert(out@[j] == found@[order@[j] as int]);
        }
        assert(a =~= b);
    }
    out
}

// ---------------------------------------------------------------------------
// Suggestions
// ---------------------------------------------------------------------------

/// The keys that share a token with a query, most shared first.
pub open spec fn nearest_spec(keys: Seq<Seq<char>>, query: Seq<char>, limit: int) -> Seq<
    Seq<char>,
> {
    let near = crate::rank::picked(keys.len(), |i: int| overlap_spec(keys[i], query) > 0);
    let scores = near.map_values(|i: int| overlap_spec(keys[i], query) as int);
    crate::rank::at_most(
        crate::rank::best_first(scores).map_values(|k: int| keys[near[k]]),
        limit,
    )
}

/// The existing keys most similar to `query`, by token overlap, best first.
pub fn nearest_keys(keys: &Vec<String>, query: &str, limit: usize) -> (r: Vec<String>)
    ensures
        crate::text::texts(r@) == nearest_spec(crate::text::texts(keys@), query@, limit as int),
{
    let ghost all = crate::text::texts(keys@);
    let ghost test = |i: int| overlap_spec(all[i], query@) > 0;
    let ghost near = crate::rank::picked(all.len(), test);
    let ghost score = |i: int| overlap_spec(all[i], query@) as int;
    let mut found: Vec<usize> = Vec::new();
    let mut scores: Vec<i128> = Vec::new();
    let mut i: usize = 0;
    while i < keys.len()
        invariant
            i <= keys.len(),
            all == crate::text::texts(keys@),
            test == (|i: int| overlap_spec(all[i], query@) > 0),
            crate::rank::indices(found@) == crate::rank::picked(i as nat, test),
            scores@.len() == found@.len(),
            forall|k: int| 0 <= k < found@.len() ==> #[trigger] found@[k] < i,
            forall|k: int|
                0 <= k < found@.len() ==> #[trigger] scores@[k] == overlap_spec(
                    all[found@[k] as int],
                    query@,
                ),
        decreases keys.len() - i,
    {
        let ghost before = found@;
        let overlap = key_overlap(keys[i].as_str(), query);
        assert(all[i as int] == keys@[i as int]@);
        if overlap > 0 {
            assert(test(i as int));
            found.push(i);
            scores.push(overlap as i128);
            assert(crate::rank::indices(found@) =~= crate::rank::indices(before).push(i as int));
        } else {
            assert(!test(i as int));
        }
        i = i + 1;
    }
    assert(crate::rank::ints(scores@) =~= near.map_values(score));
    let order = ranked(&scores);
    let ghost best = crate::rank::best_first(near.map_values(score));
    let ghost whole = best.map_values(|k: int| all[near[k]]);
    let count: usize = if order.len() < limit {
        order.len()
    } else {
        limit
    };
    let mut out: Vec<String> = Vec::new();
    let mut k: usize = 0;
    while k < count
        invariant
            k <= count <= order.len(),
            all == crate::text::texts(keys@),
            order@.len() == found@.len(),
            forall|j: int| 0 <= j < order@.len() ==> #[trigger] order@[j] < found@.len(),
            forall|j: int| 0 <= j < found@.len() ==> #[trigger] found@[j] < keys@.len(),
            out@.len() == k,
            forall|j: int|
                0 <= j < k ==> (#[trigger] out@[j])@ == all[found@[order@[j] as int] as int],
        decreases count - k,
    {
        assert(order@[k as int] < found@.len());
        let place: usize = found[order[k]];
        assert(all[place as int] == keys@[place as int]@);
        out.push(keys[place].clone());
        k = k + 1;
    }
    proof {
        let a = crate::text::texts(out@);
        let b = crate::rank::at_most(whole, limit as int);
        assert(crate::rank::indices(order@) == best);
        assert forall|j: int| 0 <= j < a.len() implies a[j] == b[j] by {
            assert(crate::rank::indices(order@)[j] == order@[j]);
            assert(near[order@[j] as int] == crate::rank::indices(found@)[order@[j] as int]);
            assert(out@[j]@ == all[found@[order@[j] as int] as int]);
        }
        assert(a =~= b);
        assert(nearest_spec(all, query@, limit as int) =~= b);
    }
    out
}

/// A recall failure as an actionable message.
pub open spec fn hint_spec(keys: Seq<Seq<char>>, key: Seq<char>, error: Seq<char>) -> Seq<char> {
    let near = nearest_spec(keys, key, 5);
    let mistake = if key.contains('.') {
        Seq::<char>::empty()
    } else {
        "Keys are `entity.relation` (e.g. `staging.url`), not free text; use `ken_search` for text queries. "@
    };
    let suggestion = if near.len() == 0 {
        "No similar keys are in the store."@
    } else {
        "Did you mean: "@ + crate::text::joined(near, ", "@) + "?"@
    };
    error + ". "@ + mistake + suggestion
}

/// Turns a bare recall failure into an actionable message: names the likely
/// mistake and points at `ken_search`, with the closest existing keys.
pub fn recall_hint(keys: &Vec<String>, key: &str, error: &str) -> (r: String)
    ensures
        r@ == hint_spec(crate::text::texts(keys@), key@, error@),
{
    let mut out = error.to_owned();
    out.append(". ");
    let ghost start = out@;
    proof {
        crate::text::lemma_first_at(key@, '.');
    }
    match split_first(key, '.') {
        Some(_) => {
            proof {
                let n = crate::text::first_at(key@, '.');
                assert(key@.contains(key@[n]));
            }
        },
        None => {
            proof {
                assert(!key@.contains('.'));
            }
            out.append(
                "Keys are `entity.relation` (e.g. `staging.url`), not free text; use `ken_search` for text queries. ",
            );
        },
    }
    let ghost middle = out@;
    assert(key@.contains('.') ==> middle =~= start + Seq::<char>::empty());
    let near = nearest_keys(keys, key, 5);
    let ghost texts = crate::text::texts(near@);
    assert(texts.len() == near@.len());
    if near.len() == 0 {
        out.append("No similar keys are in the store.");
    } else {
        out.append("Did you mean: ");
        out.append(join(&near, ", ").as_str());
        out.append("?");
        assert(out@ =~= middle + ("Did you mean: "@ + crate::text::joined(texts, ", "@) + "?"@));
    }
    out
}

/// What completes an argument: entities, relations, or whole keys.
#[derive(Debug, Clone, Copy, PartialEq, Eq, Structural)]
pub enum Completable {
    Entity,
    Relation,
    Key,
}

/// What completes the argument with a given name. `key`, `topic`, and anything
/// else complete against full keys.
pub fn completable(arg_name: &str) -> (r: Completable)
    ensures
        r == completed_by(arg_name@),
{
    if same(arg_name, "entity") {
        Completable::Entity
    } else if same(arg_name, "relation") {
        Completable::Relation
    } else {
        Completable::Key
    }
}

/// What a fact offers for completion.
pub open spec fn offer(fact: Fact, what: Completable) -> Seq<char> {
    match what {
        Completable::Entity => fact.claim.entity.0@,
        Completable::Relation => fact.claim.relation@,
        Completable::Key => fact.claim.key_spec(),
    }
}

/// The offers that hold the needle, in the order of the facts.
pub open spec fn offers(facts: Seq<Fact>, what: Completable, needle: Seq<char>) -> Seq<Seq<char>>
    decreases facts.len(),
{
    if facts.len() == 0 {
        Seq::empty()
    } else {
        let before = offers(facts.drop_last(), what, needle);
        let last = offer(facts.last(), what);
        if crate::text::holds_text(crate::text::lower_form(last), needle) {
            before.push(last)
        } else {
            before
        }
    }
}

/// A sequence without repeats of the item before.
pub open spec fn deduped(s: Seq<Seq<char>>) -> Seq<Seq<char>>
    decreases s.len(),
{
    if s.len() == 0 {
        Seq::empty()
    } else {
        let before = deduped(s.drop_last());
        if before.len() > 0 && before.last() == s.last() {
            before
        } else {
            before.push(s.last())
        }
    }
}

/// The most completions that are offered.
pub const MOST_COMPLETIONS: usize = 100;

/// What completes the argument with a given name.
pub open spec fn completed_by(arg_name: Seq<char>) -> Completable {
    if arg_name == "entity"@ {
        Completable::Entity
    } else if arg_name == "relation"@ {
        Completable::Relation
    } else {
        Completable::Key
    }
}

/// What is suggested for an argument: the offers that hold what was typed, in any
/// case, sorted, each once, and no more than a hundred.
pub open spec fn completions(
    facts: Seq<Fact>,
    arg_name: Seq<char>,
    partial: Seq<char>,
) -> Seq<Seq<char>> {
    crate::rank::at_most(
        deduped(
            crate::order::in_order(
                offers(facts, completed_by(arg_name), crate::text::lower_form(partial)),
            ),
        ),
        MOST_COMPLETIONS as int,
    )
}

/// Suggests the keys actually in the store: those that hold what was typed, in
/// any case, sorted, each once, and no more than a hundred.
pub fn completion_values(facts: &Vec<Fact>, arg_name: &str, partial: &str) -> (r: Vec<String>)
    ensures
        crate::text::texts(r@) == completions(facts@, arg_name@, partial@),
{
    let needle = lower(partial);
    let what = completable(arg_name);
    let mut values: Vec<String> = Vec::new();
    let mut i: usize = 0;
    assert(facts@.take(0) =~= Seq::<Fact>::empty());
    assert(crate::text::texts(values@) =~= Seq::<Seq<char>>::empty());
    while i < facts.len()
        invariant
            i <= facts.len(),
            crate::text::texts(values@) == offers(facts@.take(i as int), what, needle@),
        decreases facts.len() - i,
    {
        let ghost before = values@;
        assert(facts@.take(i + 1).drop_last() =~= facts@.take(i as int));
        let value = match what {
            Completable::Entity => facts[i].claim.entity.0.clone(),
            Completable::Relation => facts[i].claim.relation.clone(),
            Completable::Key => facts[i].claim.key(),
        };
        if contains_text(lower(value.as_str()).as_str(), needle.as_str()) {
            values.push(value);
            assert(crate::text::texts(values@) =~= crate::text::texts(before).push(value@));
        }
        i = i + 1;
    }
    assert(facts@.take(i as int) =~= facts@);
    let all = sorted(&values);
    let ghost order = crate::text::texts(all@);
    let mut out: Vec<String> = Vec::new();
    let mut k: usize = 0;
    assert(order.take(0) =~= Seq::<Seq<char>>::empty());
    assert(crate::text::texts(out@) =~= Seq::<Seq<char>>::empty());
    while k < all.len()
        invariant
            k <= all.len(),
            order == crate::text::texts(all@),
            crate::text::texts(out@) == deduped(order.take(k as int)),
        decreases all.len() - k,
    {
        let ghost before = out@;
        assert(order.take(k + 1).drop_last() =~= order.take(k as int));
        assert(order.take(k + 1).last() == all@[k as int]@);
        assert(crate::text::texts(before).len() == before.len());
        let repeat = out.len() > 0 && same(out[out.len() - 1].as_str(), all[k].as_str());
        assert(before.len() > 0 ==> crate::text::texts(before).last() == before.last()@);
        if !repeat {
            out.push(all[k].clone());
            assert(crate::text::texts(out@) =~= crate::text::texts(before).push(all@[k as int]@));
        }
        k = k + 1;
    }
    assert(order.take(k as int) =~= order);
    let ghost whole = out@;
    out.truncate(MOST_COMPLETIONS);
    assert(crate::text::texts(out@) =~= crate::rank::at_most(
        crate::text::texts(whole),
        MOST_COMPLETIONS as int,
    ));
    out
}

} // verus!
