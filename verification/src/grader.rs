//! Grading of a submission against the catalog: per-question feedback in
//! submission order, an aggregate score, and the formatted percentage.

use vstd::prelude::*;
use crate::data::{Question, QuestionResult, QuizData, SubmitAnswersPayload, SubmitResult};
use crate::percent::{format_percentage, percentage_seq};

verus! {

/// The views of a list of strings, element by element.
pub open spec fn str_views(v: Seq<String>) -> Seq<Seq<char>> {
    v.map_values(|s: String| s@)
}

/// The ghost image of one graded entry.
pub struct ResultModel {
    pub question_id: Seq<char>,
    pub is_correct: bool,
    pub correct_option_ids: Seq<Seq<char>>,
    pub submitted_answers: Seq<Seq<char>>,
}

impl View for QuestionResult {
    type V = ResultModel;

    open spec fn view(&self) -> ResultModel {
        ResultModel {
            question_id: self.question_id@,
            is_correct: self.is_correct,
            correct_option_ids: str_views(self.correct_option_ids@),
            submitted_answers: str_views(self.submitted_answers@),
        }
    }
}

/// The views of a list of graded entries, element by element.
pub open spec fn result_views(v: Seq<QuestionResult>) -> Seq<ResultModel> {
    v.map_values(|r: QuestionResult| r@)
}

/// The first question of `qs` whose id is `id`, if any.
pub open spec fn find_question(qs: Seq<Question>, id: Seq<char>) -> Option<Question>
    decreases qs.len(),
{
    if qs.len() == 0 {
        None
    } else if qs[0].id@ == id {
        Some(qs[0])
    } else {
        find_question(qs.drop_first(), id)
    }
}

/// Whether some question of `qs` carries the id `id`.
pub open spec fn has_question(qs: Seq<Question>, id: Seq<char>) -> bool {
    find_question(qs, id) is Some
}

/// The grading policy for one question, over the correct ids and the
/// submitted ids taken as sets. A question with more than one correct id is
/// answered correctly exactly when the submitted set has the same size and
/// every submitted id is correct; a question with at most one correct id is
/// answered correctly exactly when exactly one id was submitted, there is
/// exactly one correct id, and they agree. A question with no correct id can
/// never be answered correctly.
pub open spec fn answer_is_correct(correct: Set<Seq<char>>, submitted: Set<Seq<char>>) -> bool {
    if correct.len() > 1 {
        submitted.len() == correct.len() && submitted.subset_of(correct)
    } else {
        submitted.len() == 1 && correct.len() == 1 && submitted == correct
    }
}

/// The grading of one submitted entry: `None` when the question id is not in
/// the catalog (the entry is skipped), otherwise the feedback recorded for
/// it, echoing the submitted ids as given.
pub open spec fn entry_result(qs: Seq<Question>, id: Seq<char>, submitted: Seq<Seq<char>>) -> Option<
    ResultModel,
> {
    match find_question(qs, id) {
        Option::None => None,
        Option::Some(q) => Some(
            ResultModel {
                question_id: q.id@,
                is_correct: answer_is_correct(
                    str_views(q.correct_option_ids@).to_set(),
                    submitted.to_set(),
                ),
                correct_option_ids: str_views(q.correct_option_ids@),
                submitted_answers: submitted,
            },
        ),
    }
}

/// The feedback entries for a sequence of submitted answers, in submission
/// order; entries with unknown question ids contribute nothing.
pub open spec fn graded_results(qs: Seq<Question>, answers: Seq<(String, Vec<String>)>) -> Seq<
    ResultModel,
>
    decreases answers.len(),
{
    if answers.len() == 0 {
        Seq::empty()
    } else {
        let prev = graded_results(qs, answers.drop_last());
        match entry_result(qs, answers.last().0@, str_views(answers.last().1@)) {
            Option::None => prev,
            Option::Some(rm) => prev.push(rm),
        }
    }
}

/// The number of correctly answered entries of a submission.
pub open spec fn graded_score(qs: Seq<Question>, answers: Seq<(String, Vec<String>)>) -> nat
    decreases answers.len(),
{
    if answers.len() == 0 {
        0
    } else {
        graded_score(qs, answers.drop_last()) + match entry_result(
            qs,
            answers.last().0@,
            str_views(answers.last().1@),
        ) {
            Option::None => 0nat,
            Option::Some(rm) => if rm.is_correct {
                1nat
            } else {
                0nat
            },
        }
    }
}

/// The score never exceeds the number of submitted entries.
pub proof fn lemma_score_bounded(qs: Seq<Question>, answers: Seq<(String, Vec<String>)>)
    ensures
        graded_score(qs, answers) <= answers.len(),
    decreases answers.len(),
{
    if answers.len() > 0 {
        lemma_score_bounded(qs, answers.drop_last());
    }
}

/// An entry whose question id is absent from the catalog contributes neither
/// a feedback entry nor a point: grading with it appended grades as without
/// it.
pub proof fn lemma_unknown_id_skipped(
    qs: Seq<Question>,
    answers: Seq<(String, Vec<String>)>,
    entry: (String, Vec<String>),
)
    requires
        !has_question(qs, entry.0@),
    ensures
        graded_results(qs, answers.push(entry)) == graded_results(qs, answers),
        graded_score(qs, answers.push(entry)) == graded_score(qs, answers),
{
    let pushed = answers.push(entry);
    assert(pushed.drop_last() =~= answers);
    assert(pushed.last() == entry);
}

/// The grading policy, in one sentence: an answer is graded correct exactly
/// when the submitted ids, as a set, equal the correct ids and at least one
/// id is correct.
pub proof fn lemma_correct_iff_sets_equal(correct: Set<Seq<char>>, submitted: Set<Seq<char>>)
    requires
        correct.finite(),
        submitted.finite(),
    ensures
        answer_is_correct(correct, submitted) <==> (correct.len() >= 1 && submitted == correct),
{
    if correct.len() > 1 {
        if submitted.len() == correct.len() && submitted.subset_of(correct) {
            assert forall|x: Seq<char>| correct.contains(x) implies submitted.contains(x) by {
                if !submitted.contains(x) {
                    submitted.lemma_subset_not_in_lt(correct, x);
                }
            }
            assert(submitted =~= correct);
        }
        if submitted == correct {
            assert(submitted.subset_of(correct));
        }
    } else {
        if submitted == correct && correct.len() == 1 {
            assert(submitted.len() == 1);
        }
    }
}

/// Whether some string of `v` reads as `s`.
fn contains_string(v: &Vec<String>, s: &String) -> (b: bool)
    ensures
        b == str_views(v@).contains(s@),
{
    let mut i: usize = 0;
    while i < v.len()
        invariant
            i <= v@.len(),
            forall|j: int| 0 <= j < i ==> str_views(v@)[j] != s@,
        decreases v@.len() - i,
    {
        if v[i] == *s {
            assert(str_views(v@)[i as int] == s@);
            return true;
        }
        i += 1;
    }
    assert(forall|j: int| 0 <= j < str_views(v@).len() ==> str_views(v@)[j] != s@);
    false
}

/// Whether every string of `a` occurs among the strings of `b`, read as
/// sets of string contents.
fn all_contained(a: &Vec<String>, b: &Vec<String>) -> (r: bool)
    ensures
        r == str_views(a@).to_set().subset_of(str_views(b@).to_set()),
{
    let mut i: usize = 0;
    while i < a.len()
        invariant
            i <= a@.len(),
            forall|j: int| 0 <= j < i ==> str_views(b@).contains(#[trigger] str_views(a@)[j]),
        decreases a@.len() - i,
    {
        if !contains_string(b, &a[i]) {
            assert(str_views(a@).to_set().contains(str_views(a@)[i as int]));
            return false;
        }
        i += 1;
    }
    assert forall|x: Seq<char>|
        str_views(a@).to_set().contains(x) implies str_views(b@).to_set().contains(x) by {
        let j = choose|j: int| 0 <= j < str_views(a@).len() && str_views(a@)[j] == x;
        assert(str_views(b@).contains(str_views(a@)[j]));
    }
    true
}

/// The distinct strings of `v`, first occurrences kept in order.
fn dedup_strings(v: &Vec<String>) -> (r: Vec<String>)
    ensures
        str_views(r@).no_duplicates(),
        str_views(r@).to_set() == str_views(v@).to_set(),
{
    let mut r: Vec<String> = Vec::new();
    let mut i: usize = 0;
    proof {
        assert(str_views(r@) =~= Seq::<Seq<char>>::empty());
        assert(str_views(v@).take(0).to_set() =~= str_views(r@).to_set());
    }
    while i < v.len()
        invariant
            i <= v@.len(),
            str_views(r@).no_duplicates(),
            str_views(r@).to_set() == str_views(v@).take(i as int).to_set(),
        decreases v@.len() - i,
    {
        let ghost prev = str_views(r@);
        let present = contains_string(&r, &v[i]);
        if !present {
            r.push(v[i].clone());
            proof {
                assert(str_views(r@) =~= prev.push(v@[i as int]@));
                assert(str_views(r@).drop_last() =~= prev);
                assert(str_views(r@).to_set() =~= prev.to_set().insert(v@[i as int]@)) by {
                    Seq::<Seq<char>>::lemma_to_set_insert_commutes(prev, v@[i as int]@);
                    assert(prev + seq![v@[i as int]@] =~= prev.push(v@[i as int]@));
                }
            }
        }
        proof {
            assert(str_views(v@).take(i + 1).drop_last() =~= str_views(v@).take(i as int));
            assert(str_views(v@).take(i + 1).to_set() =~= str_views(v@).take(i as int).to_set().insert(
                v@[i as int]@,
            )) by {
                Seq::<Seq<char>>::lemma_to_set_insert_commutes(
                    str_views(v@).take(i as int),
                    v@[i as int]@,
                );
                assert(str_views(v@).take(i as int) + seq![v@[i as int]@] =~= str_views(v@).take(
                    i as int,
                ).push(v@[i as int]@));
                assert(str_views(v@).take(i + 1) =~= str_views(v@).take(i as int).push(
                    v@[i as int]@,
                ));
            }
            if present {
                assert(str_views(r@).to_set().contains(v@[i as int]@));
                assert(str_views(r@).to_set() =~= str_views(r@).to_set().insert(v@[i as int]@));
            }
        }
        i += 1;
    }
    proof {
        assert(str_views(v@).take(v@.len() as int) =~= str_views(v@));
    }
    r
}

/// Decide the grading policy for one question: the question's correct option
/// ids against one submitted list of option ids, both taken as sets.
pub fn is_answer_correct(correct: &Vec<String>, submitted: &Vec<String>) -> (b: bool)
    ensures
        b == answer_is_correct(str_views(correct@).to_set(), str_views(submitted@).to_set()),
{
    let cs = dedup_strings(correct);
    let ss = dedup_strings(submitted);
    proof {
        str_views(cs@).unique_seq_to_set();
        str_views(ss@).unique_seq_to_set();
    }
    if cs.len() > 1 {
        if ss.len() == cs.len() {
            all_contained(&ss, &cs)
        } else {
            false
        }
    } else {
        if ss.len() == 1 && cs.len() == 1 {
            let eq = ss[0] == cs[0];
            proof {
                let cset = str_views(correct@).to_set();
                let sset = str_views(submitted@).to_set();
                assert(str_views(ss@)[0] == ss@[0]@);
                assert(str_views(cs@)[0] == cs@[0]@);
                if ss@[0]@ == cs@[0]@ {
                    assert forall|x: Seq<char>| sset.contains(x) implies cset.contains(x) by {
                        let j = choose|j: int|
                            0 <= j < str_views(ss@).len() && str_views(ss@)[j] == x;
                        assert(j == 0);
                        assert(str_views(cs@).contains(x));
                    }
                    assert forall|x: Seq<char>| cset.contains(x) implies sset.contains(x) by {
                        let j = choose|j: int|
                            0 <= j < str_views(cs@).len() && str_views(cs@)[j] == x;
                        assert(j == 0);
                        assert(str_views(ss@).contains(x));
                    }
                    assert(sset =~= cset);
                } else {
                    assert(sset.contains(ss@[0]@));
                    assert(!str_views(cs@).contains(ss@[0]@));
                    assert(!cset.contains(ss@[0]@));
                    assert(sset != cset);
                }
            }
            eq
        } else {
            false
        }
    }
}

/// The first catalog question carrying `id`, if any.
fn lookup_question<'a>(qs: &'a Vec<Question>, id: &String) -> (r: Option<&'a Question>)
    ensures
        match r {
            Option::Some(q) => find_question(qs@, id@) == Some(*q),
            Option::None => find_question(qs@, id@) is None,
        },
{
    let mut i: usize = 0;
    proof {
        assert(qs@.skip(0) =~= qs@);
    }
    while i < qs.len()
        invariant
            i <= qs@.len(),
            find_question(qs@, id@) == find_question(qs@.skip(i as int), id@),
        decreases qs@.len() - i,
    {
        if qs[i].id == *id {
            proof {
                assert(qs@.skip(i as int)[0] == qs@[i as int]);
            }
            return Some(&qs[i]);
        }
        proof {
            assert(qs@.skip(i as int)[0] == qs@[i as int]);
            assert(qs@.skip(i as int).drop_first() =~= qs@.skip(i + 1));
        }
        i += 1;
    }
    proof {
        assert(qs@.skip(qs@.len() as int).len() == 0);
    }
    None
}

/// A copy of a string list whose elements read the same.
fn clone_strings(v: &Vec<String>) -> (r: Vec<String>)
    ensures
        str_views(r@) == str_views(v@),
{
    let mut r: Vec<String> = Vec::new();
    let mut i: usize = 0;
    while i < v.len()
        invariant
            i <= v@.len(),
            r@.len() == i,
            forall|j: int| 0 <= j < i ==> str_views(r@)[j] == #[trigger] str_views(v@)[j],
        decreases v@.len() - i,
    {
        r.push(v[i].clone());
        i += 1;
    }
    proof {
        assert(str_views(r@) =~= str_views(v@));
    }
    r
}

/// Grade a submission against the catalog.
///
/// Entries are processed in submission order; an entry whose question id is
/// not in the catalog is skipped, contributing neither feedback nor score.
/// Every other entry contributes one feedback record echoing the submitted
/// ids as given, and one point when the grading policy marks it correct. The
/// percentage denominator is the claimed `total_questions`, not the number of
/// entries actually graded.
pub fn grade(catalog: &QuizData, payload: SubmitAnswersPayload) -> (r: SubmitResult)
    ensures
        r.score as nat == graded_score(catalog.questions@, payload.answers@),
        result_views(r.results@) == graded_results(catalog.questions@, payload.answers@),
        r.total_questions == payload.total_questions,
        r.percentage_correct@ == percentage_seq(
            graded_score(catalog.questions@, payload.answers@),
            payload.total_questions as nat,
        ),
{
    let total_questions = payload.total_questions;
    let answers = payload.answers;
    let mut score: usize = 0;
    let mut results: Vec<QuestionResult> = Vec::new();
    let mut i: usize = 0;
    proof {
        assert(answers@.take(0).len() == 0);
        assert(result_views(results@) =~= graded_results(catalog.questions@, answers@.take(0)));
    }
    while i < answers.len()
        invariant
            i <= answers@.len(),
            score as nat == graded_score(catalog.questions@, answers@.take(i as int)),
            result_views(results@) == graded_results(catalog.questions@, answers@.take(i as int)),
        decreases answers@.len() - i,
    {
        proof {
            lemma_score_bounded(catalog.questions@, answers@.take(i as int));
            assert(answers@.take(i + 1).drop_last() =~= answers@.take(i as int));
            assert(answers@.take(i + 1).last() == answers@[i as int]);
        }
        let ghost prev_results = result_views(results@);
        let entry_id: &String = &answers[i].0;
        let submitted: &Vec<String> = &answers[i].1;
        match lookup_question(&catalog.questions, entry_id) {
            Option::None => {},
            Option::Some(q) => {
                let is_correct = is_answer_correct(&q.correct_option_ids, submitted);
                if is_correct {
                    score = score + 1;
                }
                let question_result = QuestionResult {
                    question_id: q.id.clone(),
                    is_correct,
                    correct_option_ids: clone_strings(&q.correct_option_ids),
                    submitted_answers: clone_strings(submitted),
                };
                results.push(question_result);
                proof {
                    assert(result_views(results@) =~= prev_results.push(question_result@));
                }
            },
        }
        proof {
            assert(result_views(results@) =~= graded_results(
                catalog.questions@,
                answers@.take(i + 1),
            ));
        }
        i += 1;
    }
    proof {
        assert(answers@.take(answers@.len() as int) =~= answers@);
    }
    let percentage_correct = format_percentage(score, total_questions);
    SubmitResult { score, total_questions, percentage_correct, results }
}

} // verus!
