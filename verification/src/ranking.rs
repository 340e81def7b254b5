//! Ordering candidates by confidence.
use vstd::prelude::*;
use crate::schemas::Face;

verus! {

/// `sorted` with `face` put behind every candidate that scores no higher.
pub open spec fn insert_by_score(sorted: Seq<Face>, face: Face) -> Seq<Face>
    decreases sorted.len(),
{
    if sorted.len() == 0 {
        seq![face]
    } else if sorted.last().score <= face.score {
        sorted.push(face)
    } else {
        insert_by_score(sorted.drop_last(), face).push(sorted.last())
    }
}

/// The candidates in ascending order of score; candidates of equal score
/// stay in the order in which they came.
pub open spec fn sorted_by_score(faces: Seq<Face>) -> Seq<Face>
    decreases faces.len(),
{
    if faces.len() == 0 {
        faces
    } else {
        insert_by_score(sorted_by_score(faces.drop_last()), faces.last())
    }
}

/// No candidate scores lower than one before it.
pub open spec fn ascending(faces: Seq<Face>) -> bool {
    forall|i: int, j: int| 0 <= i <= j < faces.len() ==> faces[i].score <= faces[j].score
}

/// Inserting at the place that a scan from the back finds gives
/// `insert_by_score`.
pub proof fn lemma_insert_position(sorted: Seq<Face>, face: Face, at: int)
    requires
        0 <= at <= sorted.len(),
        forall|k: int| at <= k < sorted.len() ==> sorted[k].score > face.score,
        at > 0 ==> sorted[at - 1].score <= face.score,
    ensures
        insert_by_score(sorted, face) == sorted.insert(at, face),
    decreases sorted.len(),
{
    if sorted.len() == 0 {
        assert(sorted.insert(at, face) =~= seq![face]);
    } else if at == sorted.len() {
        assert(sorted.insert(at, face) =~= sorted.push(face));
    } else {
        lemma_insert_position(sorted.drop_last(), face, at);
        assert(sorted.insert(at, face) =~= sorted.drop_last().insert(at, face).push(
            sorted.last(),
        ));
    }
}

/// Insertion keeps an ascending sequence ascending, and adds exactly the
/// one candidate.
pub proof fn lemma_insert_by_score(sorted: Seq<Face>, face: Face)
    requires
        ascending(sorted),
    ensures
        ascending(insert_by_score(sorted, face)),
        insert_by_score(sorted, face).len() == sorted.len() + 1,
        insert_by_score(sorted, face).to_multiset() == sorted.to_multiset().insert(face),
    decreases sorted.len(),
{
    broadcast use vstd::seq_lib::group_to_multiset_ensures;

    let out = insert_by_score(sorted, face);
    if sorted.len() == 0 {
        assert(out =~= sorted.push(face));
    } else if sorted.last().score <= face.score {
    } else {
        let front = sorted.drop_last();
        let inner = insert_by_score(front, face);
        lemma_insert_by_score(front, face);
        assert(sorted =~= front.push(sorted.last()));
        assert forall|i: int, j: int| 0 <= i <= j < out.len() implies out[i].score
            <= out[j].score by {
            if j == out.len() - 1 && i < j {
                assert(inner.to_multiset().count(inner[i]) > 0);
                if inner[i] != face {
                    assert(front.to_multiset().count(inner[i]) > 0);
                    let k = choose|k: int| 0 <= k < front.len() && front[k] == inner[i];
                    assert(sorted[k].score <= sorted[sorted.len() - 1].score);
                }
            }
        }
        assert(out.to_multiset() =~= sorted.to_multiset().insert(face));
    }
}

/// Sorting yields an ascending arrangement of the same candidates.
pub proof fn lemma_sorted_by_score(faces: Seq<Face>)
    ensures
        ascending(sorted_by_score(faces)),
        sorted_by_score(faces).len() == faces.len(),
        sorted_by_score(faces).to_multiset() == faces.to_multiset(),
    decreases faces.len(),
{
    broadcast use vstd::seq_lib::group_to_multiset_ensures;

    if faces.len() > 0 {
        lemma_sorted_by_score(faces.drop_last());
        lemma_insert_by_score(sorted_by_score(faces.drop_last()), faces.last());
        assert(faces =~= faces.drop_last().push(faces.last()));
    }
}

/// Two arrangements of the same candidates have the same members.
pub proof fn lemma_same_members(a: Seq<Face>, b: Seq<Face>)
    requires
        a.to_multiset() == b.to_multiset(),
    ensures
        forall|face: Face| a.contains(face) <==> b.contains(face),
{
    broadcast use vstd::seq_lib::group_to_multiset_ensures;

    assert forall|face: Face| a.contains(face) <==> b.contains(face) by {
        assert(a.contains(face) <==> a.to_multiset().count(face) > 0);
        assert(b.contains(face) <==> b.to_multiset().count(face) > 0);
    }
}

/// The last of the sorted candidates scores at least as high as every
/// candidate.
pub proof fn lemma_last_is_highest(faces: Seq<Face>)
    requires
        faces.len() > 0,
    ensures
        sorted_by_score(faces).len() > 0,
        faces.contains(sorted_by_score(faces).last()),
        forall|i: int|
            0 <= i < faces.len() ==> (#[trigger] faces[i]).score <= sorted_by_score(
                faces,
            ).last().score,
{
    let sorted = sorted_by_score(faces);
    lemma_sorted_by_score(faces);
    lemma_same_members(sorted, faces);
    assert(sorted.contains(sorted[sorted.len() - 1]));
    assert forall|i: int| 0 <= i < faces.len() implies (#[trigger] faces[i]).score
        <= sorted.last().score by {
        assert(faces.contains(faces[i]));
        assert(sorted.contains(faces[i]));
        let k = choose|k: int| 0 <= k < sorted.len() && sorted[k] == faces[i];
        assert(sorted[k].score <= sorted[sorted.len() - 1].score);
    }
}

/// Sorts the candidates by ascending score, keeping candidates of equal
/// score in their order.
pub fn sort_by_score(faces: Vec<Face>) -> (sorted: Vec<Face>)
    ensures
        sorted@ == sorted_by_score(faces@),
        ascending(sorted@),
        sorted@.to_multiset() == faces@.to_multiset(),
        sorted.len() == faces.len(),
        forall|face: Face| sorted@.contains(face) <==> faces@.contains(face),
{
    let mut sorted: Vec<Face> = Vec::new();
    let mut next: usize = 0;
    while next < faces.len()
        invariant
            next <= faces.len(),
            sorted@ == sorted_by_score(faces@.take(next as int)),
            sorted.len() == next,
        decreases faces.len() - next,
    {
        let face = faces[next];
        let mut at: usize = sorted.len();
        while at > 0 && sorted[at - 1].score > face.score
            invariant
                at <= sorted.len(),
                forall|k: int| at <= k < sorted.len() ==> sorted[k].score > face.score,
            decreases at,
        {
            at -= 1;
        }
        proof {
            lemma_insert_position(sorted@, face, at as int);
            assert(faces@.take(next + 1).drop_last() =~= faces@.take(next as int));
        }
        sorted.insert(at, face);
        next += 1;
    }
    proof {
        assert(faces@.take(next as int) =~= faces@);
        lemma_sorted_by_score(faces@);
        lemma_same_members(sorted@, faces@);
    }
    sorted
}

} // verus!
