//! Random sampling of a question subset: shuffle the whole catalog uniformly,
//! then keep a prefix of the requested length.

use vstd::prelude::*;
use vstd::multiset::Multiset;
use crate::data::{catalog_wf, Question, question_ids, question_wf, QuizData, unique_question_ids};

verus! {

/// Relies on rand's `SliceRandom::shuffle` (with the thread-local generator
/// `rand::rng`): it permutes the slice in place by Fisher-Yates swaps, so the
/// questions afterwards are exactly the questions before, in some order.
#[verifier::external_body]
fn shuffle_questions(questions: &mut Vec<Question>)
    ensures
        final(questions)@.len() == old(questions)@.len(),
        final(questions)@.to_multiset() == old(questions)@.to_multiset(),
{
    rand::seq::SliceRandom::shuffle(questions.as_mut_slice(), &mut rand::rng());
}

/// A prefix of a sequence carries a sub-multiset of the whole sequence.
proof fn lemma_take_submultiset<A>(s: Seq<A>, k: int)
    requires
        0 <= k <= s.len(),
    ensures
        s.take(k).to_multiset().subset_of(s.to_multiset()),
{
    assert(s == s.take(k) + s.skip(k));
    vstd::seq_lib::lemma_multiset_commutative(s.take(k), s.skip(k));
    assert forall|x: A|
        s.take(k).to_multiset().count(x) <= s.to_multiset().count(x) by {
        assert(s.to_multiset().count(x) == s.take(k).to_multiset().count(x) + s.skip(
            k,
        ).to_multiset().count(x));
    }
}

/// Select a random subset of the catalog's questions, without replacement.
///
/// A zero count yields an empty question list. Otherwise the whole question
/// list is shuffled uniformly and the first `min(count, n)` questions are
/// kept, so a count at or above the catalog size returns every question, in
/// shuffled order.
pub fn sample(quiz: QuizData, count: usize) -> (r: QuizData)
    ensures
        r.title@ == quiz.title@,
        count == 0 ==> r.questions@ == Seq::<Question>::empty(),
        count > 0 ==> r.questions@.len() == vstd::math::min(
            count as int,
            quiz.questions@.len() as int,
        ),
        r.questions@.to_multiset().subset_of(quiz.questions@.to_multiset()),
        count >= quiz.questions@.len() && count > 0 ==> r.questions@.to_multiset()
            == quiz.questions@.to_multiset(),
{
    let title = quiz.title;
    let mut questions = quiz.questions;
    if count == 0 {
        proof {
            broadcast use vstd::seq_lib::group_to_multiset_ensures;

            assert(Seq::<Question>::empty().to_multiset() =~= Multiset::<Question>::empty());
        }
        return QuizData { title, questions: Vec::new() };
    }
    shuffle_questions(&mut questions);
    let ghost shuffled = questions@;
    questions.truncate(count);
    proof {
        if count < shuffled.len() {
            lemma_take_submultiset(shuffled, count as int);
            assert(questions@ == shuffled.take(count as int));
        } else {
            assert(questions@ =~= shuffled);
        }
    }
    QuizData { title, questions }
}

/// Sampling keeps question ids distinct and inside the original catalog: any
/// question list carrying a sub-multiset of a list with unique ids has unique
/// ids itself, and each of its ids occurs in the original list.
pub proof fn lemma_sample_ids(orig: Seq<Question>, sampled: Seq<Question>)
    requires
        sampled.to_multiset().subset_of(orig.to_multiset()),
        unique_question_ids(orig),
    ensures
        unique_question_ids(sampled),
        forall|i: int|
            0 <= i < sampled.len() ==> question_ids(orig).contains(#[trigger] sampled[i].id@),
{
    broadcast use vstd::seq_lib::group_to_multiset_ensures;

    assert forall|i: int|
        0 <= i < sampled.len() implies question_ids(orig).contains(#[trigger] sampled[i].id@) by {
        assert(sampled.to_multiset().count(sampled[i]) > 0);
        assert(orig.contains(sampled[i]));
        let k = choose|k: int| 0 <= k < orig.len() && orig[k] == sampled[i];
        assert(orig.map_values(|q: Question| q.id@)[k] == sampled[i].id@);
        assert(orig.map_values(|q: Question| q.id@).contains(sampled[i].id@));
    }
    assert forall|i: int, j: int|
        0 <= i < j < sampled.len() implies sampled[i].id@ != sampled[j].id@ by {
        if sampled[i].id@ == sampled[j].id@ {
            assert(sampled.to_multiset().count(sampled[i]) > 0);
            assert(sampled.to_multiset().count(sampled[j]) > 0);
            assert(orig.contains(sampled[i]));
            assert(orig.contains(sampled[j]));
            let ki = choose|k: int| 0 <= k < orig.len() && orig[k] == sampled[i];
            let kj = choose|k: int| 0 <= k < orig.len() && orig[k] == sampled[j];
            // Unique ids in the original force both occurrences onto one
            // position, so the two sampled questions are one value.
            assert(ki == kj);
            assert(sampled[i] == sampled[j]);
            // That one value sits at two positions of `sampled`, so its count
            // there is at least two, which the sub-multiset bound carries into
            // `orig`, against `orig`'s unique ids.
            lemma_two_positions_count(sampled, i, j);
            assert(orig.to_multiset().count(sampled[i]) >= 2);
            lemma_count_two_positions(orig, sampled[i]);
        }
    }
}

/// Sampling preserves catalog well-formedness: a catalog whose questions
/// carry a sub-multiset of a well-formed catalog's questions is well formed
/// itself.
pub proof fn lemma_sample_preserves_wf(orig: QuizData, sampled: QuizData)
    requires
        catalog_wf(orig),
        sampled.questions@.to_multiset().subset_of(orig.questions@.to_multiset()),
    ensures
        catalog_wf(sampled),
{
    broadcast use vstd::seq_lib::group_to_multiset_ensures;

    lemma_sample_ids(orig.questions@, sampled.questions@);
    assert forall|i: int|
        0 <= i < sampled.questions@.len() implies question_wf(#[trigger] sampled.questions@[i]) by {
        assert(sampled.questions@.to_multiset().count(sampled.questions@[i]) > 0);
        assert(orig.questions@.contains(sampled.questions@[i]));
        let k = choose|k: int|
            0 <= k < orig.questions@.len() && orig.questions@[k] == sampled.questions@[i];
        assert(question_wf(orig.questions@[k]));
    }
}

/// A value at two distinct positions of a sequence has multiset count at
/// least two.
proof fn lemma_two_positions_count<A>(s: Seq<A>, i: int, j: int)
    requires
        0 <= i < j < s.len(),
        s[i] == s[j],
    ensures
        s.to_multiset().count(s[i]) >= 2,
{
    broadcast use vstd::seq_lib::group_to_multiset_ensures;

    let removed = s.remove(j);
    assert(removed.to_multiset() == s.to_multiset().remove(s[j]));
    assert(removed[i] == s[i]);
    assert(removed.contains(s[i]));
    assert(removed.to_multiset().count(s[i]) > 0);
    assert(s.to_multiset().count(s[i]) == removed.to_multiset().count(s[i]) + 1);
}

/// A value with multiset count at least two sits at two distinct positions.
proof fn lemma_count_two_positions<A>(s: Seq<A>, x: A)
    requires
        s.to_multiset().count(x) >= 2,
    ensures
        exists|i: int, j: int| 0 <= i < j < s.len() && s[i] == x && s[j] == x,
{
    broadcast use vstd::seq_lib::group_to_multiset_ensures;

    assert(s.contains(x));
    let i = choose|i: int| 0 <= i < s.len() && s[i] == x;
    let removed = s.remove(i);
    assert(removed.to_multiset() == s.to_multiset().remove(x));
    assert(removed.to_multiset().count(x) >= 1);
    assert(removed.contains(x));
    let j0 = choose|j: int| 0 <= j < removed.len() && removed[j] == x;
    let j = if j0 < i {
        j0
    } else {
        j0 + 1
    };
    assert(s[j] == x);
    assert(i != j);
    if i < j {
        assert(s[i] == x && s[j] == x);
    } else {
        assert(s[j] == x && s[i] == x);
    }
}

} // verus!
