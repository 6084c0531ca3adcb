//! What a search finds, and in which order.

use crate::mcp::{SearchParams, TokenKind};
use crate::number::Real;
use crate::schema::{Fact, Groundedness};
use crate::time::Timestamp;
use vstd::prelude::*;

verus! {

// ---------------------------------------------------------------------------
// Words
// ---------------------------------------------------------------------------

/// Whether a character belongs to words of a kind.
pub open spec fn belongs(kind: TokenKind, c: char) -> bool {
    match kind {
        TokenKind::Word => !crate::text::is_space(c),
        TokenKind::Alphanumeric => crate::text::is_alphanumeric(c),
    }
}

/// Whether a word starts at a place of a text.
pub open spec fn starts_word(kind: TokenKind, q: Seq<char>, i: int) -> bool {
    0 <= i < q.len() && belongs(kind, q[i]) && (i == 0 || !belongs(kind, q[i - 1]))
}

/// Where the word ends that a place of a text is in.
pub open spec fn word_end(kind: TokenKind, q: Seq<char>, i: int) -> int
    decreases q.len() - i,
{
    if i < 0 || i >= q.len() || !belongs(kind, q[i]) {
        i
    } else {
        word_end(kind, q, i + 1)
    }
}

/// The word that starts at a place of a text.
pub open spec fn word_at(kind: TokenKind, q: Seq<char>, i: int) -> Seq<char> {
    q.subrange(i, word_end(kind, q, i))
}

/// How many words of a text, from a place on, pass a test.
pub open spec fn words_from(
    kind: TokenKind,
    q: Seq<char>,
    from: int,
    test: spec_fn(Seq<char>) -> bool,
) -> nat
    decreases q.len() - from,
{
    if from < 0 || from >= q.len() {
        0
    } else {
        words_from(kind, q, from + 1, test) + if starts_word(kind, q, from) && test(
            word_at(kind, q, from),
        ) {
            1nat
        } else {
            0nat
        }
    }
}

proof fn lemma_word_end(kind: TokenKind, q: Seq<char>, i: int)
    requires
        0 <= i <= q.len(),
    ensures
        i <= word_end(kind, q, i) <= q.len(),
        crate::mcp::token_run(kind, q.skip(i)) == word_end(kind, q, i) - i,
        forall|k: int| i <= k < word_end(kind, q, i) ==> belongs(kind, #[trigger] q[k]),
        word_end(kind, q, i) < q.len() ==> !belongs(kind, q[word_end(kind, q, i)]),
    decreases q.len() - i,
{
    if i < q.len() {
        assert(q.skip(i)[0] == q[i]);
        if belongs(kind, q[i]) {
            lemma_word_end(kind, q, i + 1);
            assert(q.skip(i).skip(1) =~= q.skip(i + 1));
        }
    }
}

/// No word starts within a word.
proof fn lemma_within_word(
    kind: TokenKind,
    q: Seq<char>,
    from: int,
    to: int,
    test: spec_fn(Seq<char>) -> bool,
)
    requires
        0 < from <= to <= q.len(),
        forall|k: int| from - 1 <= k < to ==> belongs(kind, #[trigger] q[k]),
    ensures
        words_from(kind, q, from, test) == words_from(kind, q, to, test),
    decreases to - from,
{
    if from < to {
        assert(belongs(kind, q[from - 1]));
        lemma_within_word(kind, q, from + 1, to, test);
    }
}

proof fn lemma_held_first(w: Seq<char>, ws: Seq<Seq<char>>, text: Seq<char>)
    ensures
        crate::mcp::held(seq![w] + ws, text) == crate::mcp::held(ws, text)
            + if crate::text::holds_text(text, w) {
            1nat
        } else {
            0nat
        },
    decreases ws.len(),
{
    let all = seq![w] + ws;
    if ws.len() == 0 {
        assert(all.drop_last() =~= Seq::<Seq<char>>::empty());
        assert(all.last() == w);
        assert(crate::mcp::held(all.drop_last(), text) == 0);
    } else {
        assert(all.drop_last() =~= seq![w] + ws.drop_last());
        assert(all.last() == ws.last());
        lemma_held_first(w, ws.drop_last(), text);
    }
}

/// The test of whether a text holds a word.
pub open spec fn held_in(text: Seq<char>) -> spec_fn(Seq<char>) -> bool {
    |w: Seq<char>| crate::text::holds_text(text, w)
}

proof fn lemma_held_words(kind: TokenKind, q: Seq<char>, from: int, text: Seq<char>)
    requires
        0 <= from <= q.len(),
        from == 0 || from == q.len() || !belongs(kind, q[from - 1]) || !belongs(kind, q[from]),
    ensures
        crate::mcp::held(crate::mcp::tokens(kind, q.skip(from)), text) == words_from(
            kind,
            q,
            from,
            held_in(text),
        ),
    decreases q.len() - from,
{
    let rest = q.skip(from);
    let test = held_in(text);
    if from < q.len() {
        lemma_word_end(kind, q, from);
        assert(rest[0] == q[from]);
        let end = word_end(kind, q, from);
        if end == from {
            assert(rest.skip(1) =~= q.skip(from + 1));
            lemma_held_words(kind, q, from + 1, text);
        } else {
            let n = end - from;
            assert(belongs(kind, q[from]));
            assert(starts_word(kind, q, from));
            assert(rest.take(n) =~= word_at(kind, q, from));
            assert(rest.skip(n) =~= q.skip(end));
            lemma_held_words(kind, q, end, text);
            lemma_held_first(rest.take(n), crate::mcp::tokens(kind, q.skip(end)), text);
            lemma_within_word(kind, q, from + 1, end, test);
        }
    }
}

/// Tests that agree count the same words.
proof fn lemma_same_words(
    kind: TokenKind,
    q: Seq<char>,
    from: int,
    a: spec_fn(Seq<char>) -> bool,
    b: spec_fn(Seq<char>) -> bool,
)
    requires
        0 <= from,
        forall|i: int|
            0 <= i < q.len() && #[trigger] starts_word(kind, q, i) ==> a(word_at(kind, q, i)) == b(
                word_at(kind, q, i),
            ),
    ensures
        words_from(kind, q, from, a) == words_from(kind, q, from, b),
    decreases q.len() - from,
{
    if from < q.len() {
        lemma_same_words(kind, q, from + 1, a, b);
    }
}

/// A word without a space lies on one side of it.
proof fn lemma_word_beside_space(k: Seq<char>, v: Seq<char>, w: Seq<char>)
    requires
        w.len() > 0,
        forall|i: int| 0 <= i < w.len() ==> #[trigger] w[i] != ' ',
    ensures
        crate::text::holds_text(k + seq![' '] + v, w) == (crate::text::holds_text(k, w)
            || crate::text::holds_text(v, w)),
{
    let s = k + seq![' '] + v;
    let n = k.len() as int;
    if crate::text::holds_text(s, w) {
        let i = choose|i: int| crate::text::occurs_at(s, w, i);
        assert(s.subrange(i, i + w.len()) == w);
        if i + w.len() <= n {
            assert(k.subrange(i, i + w.len()) =~= w);
            assert(crate::text::occurs_at(k, w, i));
        } else if i > n {
            assert(v.subrange(i - n - 1, i - n - 1 + w.len()) =~= w);
            assert(crate::text::occurs_at(v, w, i - n - 1));
        } else {
            assert(s.subrange(i, i + w.len())[n - i] == ' ');
            assert(w[n - i] != ' ');
        }
    }
    if crate::text::holds_text(k, w) {
        let i = choose|i: int| crate::text::occurs_at(k, w, i);
        assert(s.subrange(i, i + w.len()) =~= k.subrange(i, i + w.len()));
        assert(crate::text::occurs_at(s, w, i));
    }
    if crate::text::holds_text(v, w) {
        let i = choose|i: int| crate::text::occurs_at(v, w, i);
        assert(s.subrange(n + 1 + i, n + 1 + i + w.len()) =~= v.subrange(i, i + w.len()));
        assert(crate::text::occurs_at(s, w, n + 1 + i));
    }
}

// ---------------------------------------------------------------------------
// What agents find
// ---------------------------------------------------------------------------

/// The key of a fact.
pub open spec fn key_of(fact: Fact) -> Seq<char> {
    fact.claim.entity.0@ + seq!['.'] + fact.claim.relation@
}

/// The name of a standing.
pub open spec fn state_name(groundedness: Groundedness) -> Seq<char> {
    match groundedness {
        Groundedness::Ungrounded { .. } => "ungrounded"@,
        Groundedness::Verified { .. } => "verified"@,
        Groundedness::Refuted { .. } => "refuted"@,
        Groundedness::Conflicted { .. } => "conflicted"@,
    }
}

/// The test of whether a fact's key or value, in lower case, holds a word.
pub open spec fn found_in(fact: Fact) -> spec_fn(Seq<char>) -> bool {
    |w: Seq<char>|
        super::text::is_around(crate::text::lower_form(key_of(fact)), w) || super::text::is_around(
            crate::text::lower_form(fact.value.render_spec()),
            w,
        )
}

/// How many words of a query, in lower case, a fact's key or value holds.
pub open spec fn words_found(query: Seq<char>, fact: Fact) -> nat {
    words_from(TokenKind::Word, crate::text::lower_form(query), 0, found_in(fact))
}

/// Whether a query has a word.
pub open spec fn has_word(query: Seq<char>) -> bool {
    !super::text::is_blank(crate::text::lower_form(query))
}

/// Whether a fact is one that a search asks for: its entity and relation are those asked
/// for, it stands as asked for, and it holds a word of the query where there is one.
pub open spec fn is_asked_for(fact: Fact, params: SearchParams) -> bool {
    &&& params.entity matches Some(entity) ==> entity@ == fact.claim.entity.0@
    &&& params.relation matches Some(relation) ==> relation@ == fact.claim.relation@
    &&& params.grounded matches Some(state) ==> crate::text::lower_form(state@) == state_name(
        fact.epistemics.groundedness,
    )
    &&& has_word(params.query@) ==> words_found(params.query@, fact) > 0
}

proof fn lemma_words_found(query: Seq<char>, fact: Fact)
    ensures
        crate::mcp::score_spec(fact, crate::mcp::query_spec(query)) == words_found(query, fact),
{
    let kind = TokenKind::Word;
    let q = crate::text::lower_form(query);
    let k = crate::text::lower_form(fact.claim.key_spec());
    let v = crate::text::lower_form(fact.value.render_spec());
    let hay = k + seq![' '] + v;
    assert(q.skip(0) =~= q);
    assert(fact.claim.key_spec() == key_of(fact));
    lemma_held_words(kind, q, 0, hay);
    assert forall|i: int| 0 <= i < q.len() && #[trigger] starts_word(kind, q, i) implies held_in(
        hay,
    )(word_at(kind, q, i)) == found_in(fact)(word_at(kind, q, i)) by {
        let w = word_at(kind, q, i);
        lemma_word_end(kind, q, i);
        assert(belongs(kind, q[i]));
        assert(w.len() > 0) by {
            if word_end(kind, q, i) == i {
                assert(false);
            }
        }
        assert forall|j: int| 0 <= j < w.len() implies #[trigger] w[j] != ' ' by {
            assert(belongs(kind, q[i + j]));
        }
        lemma_word_beside_space(k, v, w);
        super::text::law_holding(k, w);
        super::text::law_holding(v, w);
    }
    lemma_same_words(kind, q, 0, held_in(hay), found_in(fact));
}

pub proof fn lemma_no_tokens(s: Seq<char>)
    ensures
        crate::mcp::tokens(TokenKind::Word, s).len() == 0 <==> super::text::is_blank(s),
    decreases s.len(),
{
    if s.len() > 0 {
        crate::mcp::lemma_token_run(TokenKind::Word, s);
        let t = s.skip(1);
        lemma_no_tokens(t);
        if crate::text::is_space(s[0]) {
            if super::text::is_blank(t) {
                assert forall|i: int| 0 <= i < s.len() implies crate::text::is_space(
                    #[trigger] s[i],
                ) by {
                    if i > 0 {
                        assert(t[i - 1] == s[i]);
                    }
                }
            }
            if super::text::is_blank(s) {
                assert forall|i: int| 0 <= i < t.len() implies crate::text::is_space(
                    #[trigger] t[i],
                ) by {
                    assert(t[i] == s[i + 1]);
                }
            }
        } else {
            assert(!super::text::is_blank(s));
        }
    }
}

proof fn lemma_asked_for(fact: Fact, params: SearchParams)
    ensures
        crate::mcp::is_match(fact, params) == is_asked_for(fact, params),
{
    lemma_words_found(params.query@, fact);
    lemma_no_tokens(crate::text::lower_form(params.query@));
}

/// The test of whether a fact is asked for.
pub open spec fn asked_for(facts: Seq<Fact>, params: SearchParams) -> spec_fn(int) -> bool {
    |i: int| is_asked_for(facts[i], params)
}

/// How many words of the query each fact holds; none are counted where it has none.
pub open spec fn found_count(facts: Seq<Fact>, params: SearchParams) -> spec_fn(int) -> int {
    |i: int|
        if has_word(params.query@) {
            words_found(params.query@, facts[i]) as int
        } else {
            0int
        }
}

/// A search finds all facts that are asked for and no others, those that hold more words
/// of the query first, and of those that hold as many the earlier first.
pub proof fn law_search_ranks_by_words(facts: Seq<Fact>, params: SearchParams)
    ensures
        super::ranking::is_ranking(
            crate::mcp::search_spec(facts, params),
            facts.len(),
            asked_for(facts, params),
            found_count(facts, params),
            facts.len() as int,
        ),
        forall|i: int|
            0 <= i < facts.len() ==> (crate::mcp::search_spec(facts, params).contains(i)
                <==> is_asked_for(#[trigger] facts[i], params)),
{
    let n = facts.len();
    let test = asked_for(facts, params);
    let key = found_count(facts, params);
    let found = crate::mcp::matches_spec(facts, params);
    let scores = crate::mcp::match_scores(facts, params);
    let r = crate::mcp::search_spec(facts, params);
    let matching = |i: int| crate::mcp::is_match(facts[i], params);
    assert forall|i: int| 0 <= i < n implies #[trigger] matching(i) == test(i) by {
        lemma_asked_for(facts[i], params);
    }
    super::ranking::lemma_same_picks(n, matching, test);
    crate::rank::lemma_picked(n, test);
    lemma_no_tokens(crate::text::lower_form(params.query@));
    assert(scores =~= found.map_values(key)) by {
        assert forall|k: int| 0 <= k < found.len() implies scores[k] == key(found[k]) by {
            lemma_words_found(params.query@, facts[found[k]]);
        }
    }
    super::ranking::lemma_ranking(n, test, key, n as int);
    let best = crate::rank::best_first(scores);
    let all = Seq::new(best.len(), |k: int| found[best[k]]);
    assert(r =~= all);
    crate::rank::law_best_first(scores);
    assert(crate::rank::at_most(all, n as int) == all);
    assert forall|i: int| 0 <= i < n implies (r.contains(i) <==> is_asked_for(
        #[trigger] facts[i],
        params,
    )) by {
        if is_asked_for(facts[i], params) && !r.contains(i) {
            assert(test(i));
            assert(r.len() == n);
            lemma_full(r, n, i, key);
        }
        if r.contains(i) {
            let k = choose|k: int| 0 <= k < r.len() && r[k] == i;
            assert(test(r[k]));
        }
    }
}

/// As many different places as there are leave none out.
proof fn lemma_full(r: Seq<int>, n: nat, i: int, key: spec_fn(int) -> int)
    requires
        r.len() == n,
        0 <= i < n,
        forall|k: int| 0 <= k < r.len() ==> 0 <= #[trigger] r[k] < n,
        forall|k: int, l: int|
            0 <= k < l < r.len() ==> super::ranking::comes_first(
                key,
                #[trigger] r[k],
                #[trigger] r[l],
            ),
    ensures
        r.contains(i),
{
    if !r.contains(i) {
        assert(r.no_duplicates());
        let all = r.push(i);
        assert(all.no_duplicates());
        all.unique_seq_to_set();
        let bound = vstd::set_lib::set_int_range(0, n as int);
        vstd::set_lib::lemma_int_range(0, n as int);
        assert(all.to_set().subset_of(bound)) by {
            assert forall|x: int| all.to_set().contains(x) implies bound.contains(x) by {
                let k = choose|k: int| 0 <= k < all.len() && all[k] == x;
                if k < n {
                    assert(all[k] == r[k]);
                }
            }
        }
        vstd::set_lib::lemma_len_subset(all.to_set(), bound);
    }
}

/// With no filter set, a fact is found wherever its value or its key, in lower case,
/// holds some word of the query.
pub proof fn law_a_word_is_enough(facts: Seq<Fact>, params: SearchParams, i: int, at: int)
    requires
        0 <= i < facts.len(),
        params.entity is None,
        params.relation is None,
        params.grounded is None,
        starts_word(TokenKind::Word, crate::text::lower_form(params.query@), at),
        ({
            let word = word_at(TokenKind::Word, crate::text::lower_form(params.query@), at);
            ||| super::text::is_around(
                crate::text::lower_form(facts[i].value.render_spec()),
                word,
            )
            ||| super::text::is_around(crate::text::lower_form(key_of(facts[i])), word)
        }),
    ensures
        crate::mcp::search_spec(facts, params).contains(i),
{
    law_search_ranks_by_words(facts, params);
    let q = crate::text::lower_form(params.query@);
    lemma_word_counts(TokenKind::Word, q, 0, at, found_in(facts[i]));
    assert(is_asked_for(facts[i], params));
}

proof fn lemma_word_counts(
    kind: TokenKind,
    q: Seq<char>,
    from: int,
    at: int,
    test: spec_fn(Seq<char>) -> bool,
)
    requires
        0 <= from <= at,
        starts_word(kind, q, at),
        test(word_at(kind, q, at)),
    ensures
        words_from(kind, q, from, test) > 0,
    decreases at - from,
{
    if from < at {
        lemma_word_counts(kind, q, from + 1, at, test);
    }
}

// ---------------------------------------------------------------------------
// What people find
// ---------------------------------------------------------------------------

/// Whether a fact is one that the command line asks for.
pub open spec fn is_wanted(
    fact: Fact,
    params: SearchParams,
    only_due: bool,
    now: Timestamp,
) -> bool {
    let query = crate::text::lower_form(params.query@);
    &&& super::text::is_around(crate::text::lower_form(key_of(fact)), query)
        || super::text::is_around(crate::text::lower_form(fact.value.render_spec()), query)
    &&& params.entity matches Some(entity) ==> crate::schema::nfc_form(entity@)
        == fact.claim.entity.0@
    &&& params.relation matches Some(relation) ==> crate::schema::nfc_form(relation@)
        == fact.claim.relation@
    &&& params.grounded matches Some(state) ==> crate::text::lower_form(state@) == state_name(
        fact.epistemics.groundedness,
    )
    &&& only_due ==> crate::cli::has_fallen_due(fact, now)
}

/// The test of whether a fact is wanted.
pub open spec fn wanted(
    facts: Seq<Fact>,
    params: SearchParams,
    only_due: bool,
    now: Timestamp,
) -> spec_fn(int) -> bool {
    |i: int| is_wanted(facts[i], params, only_due, now)
}

/// The scores of facts, by their place in the total order.
pub open spec fn score_order(scores: Seq<Real>) -> spec_fn(int) -> int {
    |i: int| scores[i].rank()
}

/// The total order goes with the line of numbers.
pub proof fn law_total_order_follows_the_line(a: Real, b: Real)
    requires
        super::judging::is_number(a),
        super::judging::is_number(b),
        super::judging::on_the_line(a) < super::judging::on_the_line(b),
    ensures
        a.rank() < b.rank(),
{
}

/// What the command line finds: the facts that are wanted, the best score first, up to
/// the limit. A fact is wanted wherever its key or its value, in lower case, holds the
/// query in lower case, and every filter that is set takes it.
pub proof fn law_cli_search_ranks_by_score(
    facts: Seq<Fact>,
    params: SearchParams,
    only_due: bool,
    now: Timestamp,
    scores: Seq<Real>,
    limit: int,
)
    requires
        limit >= 0,
        scores.len() == facts.len(),
    ensures
        super::ranking::is_ranking(
            crate::cli::found_spec(facts, params, only_due, now, scores, limit),
            facts.len(),
            wanted(facts, params, only_due, now),
            score_order(scores),
            limit,
        ),
{
    let n = facts.len();
    let test = wanted(facts, params, only_due, now);
    let key = score_order(scores);
    let hit = |i: int| crate::cli::is_hit(facts[i], params, only_due, now);
    assert forall|i: int| 0 <= i < n implies #[trigger] hit(i) == test(i) by {
        let query = crate::text::lower_form(params.query@);
        let k = crate::text::lower_form(key_of(facts[i]));
        let v = crate::text::lower_form(facts[i].value.render_spec());
        assert(facts[i].claim.key_spec() == key_of(facts[i]));
        super::text::law_holding(k, query);
        super::text::law_holding(v, query);
        if query.len() == 0 {
            assert(k =~= Seq::<char>::empty() + query + k);
            assert(super::text::is_around(k, query));
        }
    }
    super::ranking::lemma_same_picks(n, hit, test);
    let hits = crate::cli::hits_of(facts, params, only_due, now);
    assert(hits == crate::rank::picked(n, test));
    crate::rank::lemma_picked(n, test);
    let keys = hits.map_values(|i: int| scores[i].rank());
    assert(keys =~= hits.map_values(key));
    super::ranking::lemma_ranking(n, test, key, limit);
    let best = crate::rank::best_first(keys);
    let all = Seq::new(best.len(), |k: int| hits[best[k]]);
    assert(crate::scheduler::at_places(hits, best) =~= all);
}

// ---------------------------------------------------------------------------
// Suggestions
// ---------------------------------------------------------------------------

/// How many letters-and-numbers words of a query, in lower case, a key holds.
pub open spec fn words_shared(key: Seq<char>, query: Seq<char>) -> nat {
    words_from(
        TokenKind::Alphanumeric,
        crate::text::lower_form(query),
        0,
        held_in(crate::text::lower_form(key)),
    )
}

/// The test of whether a key shares a word with a query.
pub open spec fn shares(keys: Seq<Seq<char>>, query: Seq<char>) -> spec_fn(int) -> bool {
    |i: int| words_shared(keys[i], query) > 0
}

/// How many words each key shares with a query.
pub open spec fn shared_count(keys: Seq<Seq<char>>, query: Seq<char>) -> spec_fn(int) -> int {
    |i: int| words_shared(keys[i], query) as int
}

/// The keys suggested for a query are those that share a word with it, those that share
/// more first, up to the limit.
pub proof fn law_suggestions_share_words(keys: Seq<Seq<char>>, query: Seq<char>, limit: int)
    requires
        limit >= 0,
    ensures
        exists|places: Seq<int>| #[trigger]
            super::ranking::is_ranking(
                places,
                keys.len(),
                shares(keys, query),
                shared_count(keys, query),
                limit,
            ) && crate::mcp::nearest_spec(keys, query, limit) == places.map_values(
                |i: int| keys[i],
            ),
{
    let n = keys.len();
    let test = shares(keys, query);
    let key = shared_count(keys, query);
    let near_test = |i: int| crate::mcp::overlap_spec(keys[i], query) > 0;
    let q = crate::text::lower_form(query);
    assert(q.skip(0) =~= q);
    assert forall|i: int| 0 <= i < n implies #[trigger] crate::mcp::overlap_spec(keys[i], query)
        == words_shared(keys[i], query) by {
        lemma_held_words(TokenKind::Alphanumeric, q, 0, crate::text::lower_form(keys[i]));
    }
    assert forall|i: int| 0 <= i < n implies #[trigger] near_test(i) == test(i) by {
        assert(crate::mcp::overlap_spec(keys[i], query) == words_shared(keys[i], query));
    }
    super::ranking::lemma_same_picks(n, near_test, test);
    let near = crate::rank::picked(n, test);
    crate::rank::lemma_picked(n, test);
    let scores = near.map_values(|i: int| crate::mcp::overlap_spec(keys[i], query) as int);
    assert(scores =~= near.map_values(key)) by {
        assert forall|k: int| 0 <= k < near.len() implies scores[k] == key(near[k]) by {
            assert(crate::mcp::overlap_spec(keys[near[k]], query) == words_shared(
                keys[near[k]],
                query,
            ));
        }
    }
    super::ranking::lemma_ranking(n, test, key, limit);
    let best = crate::rank::best_first(scores);
    let all = Seq::new(best.len(), |k: int| near[best[k]]);
    let places = crate::rank::at_most(all, limit);
    assert(crate::mcp::nearest_spec(keys, query, limit) =~= places.map_values(|i: int| keys[i]));
}

} // verus!
