//! What the grounds of a fact say together.

use crate::schema::{GroundBinding, Outcome, Resolved};
use crate::time::Timestamp;
use vstd::prelude::*;

verus! {

/// Whether a ground was last checked with an outcome.
pub open spec fn came_to(ground: GroundBinding, outcome: Outcome) -> bool {
    ground.last matches Some(last) && last.outcome == outcome
}

/// Whether a ground was last confirmed or refuted.
pub open spec fn is_settled(ground: GroundBinding) -> bool {
    came_to(ground, Outcome::Confirmed) || came_to(ground, Outcome::Refuted)
}

/// Whether one instant comes before another.
pub open spec fn earlier(a: Timestamp, b: Timestamp) -> bool {
    a.secs < b.secs || (a.secs == b.secs && a.nanos < b.nanos)
}

/// Who checked a ground, by hash; `existence` where no code ran.
pub open spec fn maker(last: Resolved) -> Seq<char> {
    match last.by {
        Some(hash) => hash.0@,
        None => "existence"@,
    }
}

/// Whether a ground is the first of those with the newest verdict.
pub open spec fn is_newest(grounds: Seq<GroundBinding>, i: int) -> bool {
    &&& 0 <= i < grounds.len()
    &&& is_settled(grounds[i])
    &&& forall|j: int|
        0 <= j < grounds.len() && is_settled(#[trigger] grounds[j]) ==> !earlier(
            grounds[i].last->Some_0.at,
            grounds[j].last->Some_0.at,
        )
    &&& forall|j: int|
        0 <= j < i && is_settled(#[trigger] grounds[j]) ==> earlier(
            grounds[j].last->Some_0.at,
            grounds[i].last->Some_0.at,
        )
}

/// Whether some places are those of the grounds with a verdict, in order.
pub open spec fn are_settled_places(grounds: Seq<GroundBinding>, places: Seq<int>) -> bool {
    &&& forall|k: int|
        0 <= k < places.len() ==> 0 <= #[trigger] places[k] < grounds.len() && is_settled(
            grounds[places[k]],
        )
    &&& forall|k: int, l: int|
        0 <= k < l < places.len() ==> #[trigger] places[k] < #[trigger] places[l]
    &&& forall|i: int|
        0 <= i < grounds.len() && is_settled(#[trigger] grounds[i]) ==> places.contains(i)
}

proof fn lemma_newest(grounds: Seq<GroundBinding>)
    ensures
        match crate::store::apply::newest_verdict(grounds) {
            Some(last) => exists|i: int| #[trigger]
                is_newest(grounds, i) && grounds[i].last == Some(last),
            None => forall|i: int| 0 <= i < grounds.len() ==> !is_settled(#[trigger] grounds[i]),
        },
    decreases grounds.len(),
{
    if grounds.len() > 0 {
        let front = grounds.drop_last();
        let n = grounds.len() - 1;
        lemma_newest(front);
        assert forall|j: int| 0 <= j < n implies #[trigger] grounds[j] == front[j] by {}
        let before = crate::store::apply::newest_verdict(front);
        if is_settled(grounds[n]) {
            if before is None || earlier(
                before->Some_0.at,
                grounds[n].last->Some_0.at,
            ) {
                assert(is_newest(grounds, n)) by {
                    if before is Some {
                        let i = choose|i: int| #[trigger]
                            is_newest(front, i) && front[i].last == before;
                        assert forall|j: int| 0 <= j < n && is_settled(
                            #[trigger] grounds[j],
                        ) implies earlier(
                            grounds[j].last->Some_0.at,
                            grounds[n].last->Some_0.at,
                        ) by {
                            assert(is_settled(front[j]));
                        }
                    }
                }
            } else {
                let i = choose|i: int| #[trigger] is_newest(front, i) && front[i].last == before;
                assert(is_newest(grounds, i)) by {
                    assert forall|j: int| 0 <= j < grounds.len() && is_settled(
                        #[trigger] grounds[j],
                    ) implies !earlier(
                        grounds[i].last->Some_0.at,
                        grounds[j].last->Some_0.at,
                    ) by {
                        if j < n {
                            assert(is_settled(front[j]));
                        }
                    }
                    assert forall|j: int| 0 <= j < i && is_settled(
                        #[trigger] grounds[j],
                    ) implies earlier(
                        grounds[j].last->Some_0.at,
                        grounds[i].last->Some_0.at,
                    ) by {
                        assert(is_settled(front[j]));
                    }
                }
            }
        } else if before is Some {
            let i = choose|i: int| #[trigger] is_newest(front, i) && front[i].last == before;
            assert(is_newest(grounds, i)) by {
                assert forall|j: int| 0 <= j < grounds.len() && is_settled(
                    #[trigger] grounds[j],
                ) implies !earlier(grounds[i].last->Some_0.at, grounds[j].last->Some_0.at) by {
                    assert(is_settled(front[j]));
                }
                assert forall|j: int| 0 <= j < i && is_settled(#[trigger] grounds[j]) implies earlier(
                    grounds[j].last->Some_0.at,
                    grounds[i].last->Some_0.at,
                ) by {
                    assert(is_settled(front[j]));
                }
            }
        } else {
            assert forall|i: int| 0 <= i < grounds.len() implies !is_settled(
                #[trigger] grounds[i],
            ) by {
                if i < n {
                    assert(!is_settled(front[i]));
                }
            }
        }
    }
}

proof fn lemma_makers(grounds: Seq<GroundBinding>) -> (places: Seq<int>)
    ensures
        are_settled_places(grounds, places),
        crate::store::apply::verdict_makers(grounds).len() == places.len(),
        forall|k: int|
            0 <= k < places.len() ==> #[trigger] crate::store::apply::verdict_makers(grounds)[k]
                == maker(grounds[places[k]].last->Some_0),
    decreases grounds.len(),
{
    if grounds.len() == 0 {
        Seq::empty()
    } else {
        let front = grounds.drop_last();
        let n = grounds.len() - 1;
        let before = lemma_makers(front);
        assert forall|j: int| 0 <= j < n implies #[trigger] grounds[j] == front[j] by {}
        let places = if is_settled(grounds[n]) {
            before.push(n)
        } else {
            before
        };
        assert forall|i: int| 0 <= i < grounds.len() && is_settled(
            #[trigger] grounds[i],
        ) implies places.contains(i) by {
            if i < n {
                assert(is_settled(front[i]));
                let k = choose|k: int| 0 <= k < before.len() && before[k] == i;
                assert(places[k] == i);
            } else {
                assert(places[before.len() as int] == n);
            }
        }
        let made = crate::store::apply::verdict_makers(grounds);
        assert forall|k: int| 0 <= k < places.len() implies #[trigger] made[k] == maker(
            grounds[places[k]].last->Some_0,
        ) by {
            if k < before.len() {
                assert(places[k] == before[k]);
                assert(made[k] == crate::store::apply::verdict_makers(front)[k]);
            }
        }
        places
    }
}

/// Grounds that agree give their verdict, as of the newest of them and in the name of
/// who made it: no ground with a verdict was checked later, and of several checked at
/// that instant the first is named. Grounds that split give both answers, with all who
/// made a verdict, in the order of the grounds. Grounds without a verdict leave the
/// standing as it was.
pub proof fn law_grounds_speak_together(
    grounds: Seq<GroundBinding>,
    prior: crate::store::apply::Standing,
)
    ensures
        ({
            let standing = crate::store::apply::aggregate(grounds, prior);
            let confirmed = exists|i: int|
                0 <= i < grounds.len() && came_to(#[trigger] grounds[i], Outcome::Confirmed);
            let refuted = exists|i: int|
                0 <= i < grounds.len() && came_to(#[trigger] grounds[i], Outcome::Refuted);
            &&& confirmed && !refuted ==> exists|i: int| #[trigger]
                is_newest(grounds, i) && standing == (crate::store::apply::Standing::Verified {
                    at: grounds[i].last->Some_0.at,
                    by: maker(grounds[i].last->Some_0),
                })
            &&& refuted && !confirmed ==> exists|i: int| #[trigger]
                is_newest(grounds, i) && standing == (crate::store::apply::Standing::Refuted {
                    at: grounds[i].last->Some_0.at,
                    by: maker(grounds[i].last->Some_0),
                })
            &&& confirmed && refuted ==> standing is Conflicted && exists|places: Seq<int>|
                #[trigger]
                are_settled_places(grounds, places) && standing->verifiers.len() == places.len()
                    && forall|k: int|
                    0 <= k < places.len() ==> #[trigger] standing->verifiers[k] == maker(
                        grounds[places[k]].last->Some_0,
                    )
            &&& !confirmed && !refuted ==> standing == prior
        }),
{
    lemma_newest(grounds);
    let places = lemma_makers(grounds);
    let confirmed = exists|i: int|
        0 <= i < grounds.len() && came_to(#[trigger] grounds[i], Outcome::Confirmed);
    let refuted = exists|i: int|
        0 <= i < grounds.len() && came_to(#[trigger] grounds[i], Outcome::Refuted);
    assert(confirmed == crate::store::apply::any_came_to(grounds, Outcome::Confirmed)) by {
        if confirmed {
            let i = choose|i: int|
                0 <= i < grounds.len() && came_to(#[trigger] grounds[i], Outcome::Confirmed);
            assert(grounds[i].last->Some_0.outcome == Outcome::Confirmed);
        }
        if crate::store::apply::any_came_to(grounds, Outcome::Confirmed) {
            let i = choose|i: int|
                0 <= i < grounds.len() && ((#[trigger] grounds[i]).last matches Some(last)
                    && last.outcome == Outcome::Confirmed);
            assert(came_to(grounds[i], Outcome::Confirmed));
        }
    }
    assert(refuted == crate::store::apply::any_came_to(grounds, Outcome::Refuted)) by {
        if refuted {
            let i = choose|i: int|
                0 <= i < grounds.len() && came_to(#[trigger] grounds[i], Outcome::Refuted);
            assert(grounds[i].last->Some_0.outcome == Outcome::Refuted);
        }
        if crate::store::apply::any_came_to(grounds, Outcome::Refuted) {
            let i = choose|i: int|
                0 <= i < grounds.len() && ((#[trigger] grounds[i]).last matches Some(last)
                    && last.outcome == Outcome::Refuted);
            assert(came_to(grounds[i], Outcome::Refuted));
        }
    }
    if confirmed || refuted {
        let k = choose|k: int|
            0 <= k < grounds.len() && (came_to(#[trigger] grounds[k], Outcome::Confirmed)
                || came_to(grounds[k], Outcome::Refuted));
        assert(is_settled(grounds[k]));
    }
}

} // verus!
