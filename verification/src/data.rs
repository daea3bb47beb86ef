//! The data model: options, questions, catalogs, submissions and grading
//! results, together with their well-formedness conditions.

use vstd::prelude::*;

verus! {

/// One selectable choice of a question.
pub struct QuizOption {
    pub id: String,
    pub text: String,
}

/// A multiple-choice question: its prompt, the options offered in order, the
/// ids of the correct options, and an optional explanation.
pub struct Question {
    pub id: String,
    pub text: String,
    pub options: Vec<QuizOption>,
    pub correct_option_ids: Vec<String>,
    pub explanation: Option<String>,
}

/// A catalog of questions under one title.
pub struct QuizData {
    pub title: String,
    pub questions: Vec<Question>,
}

/// A learner's submission: the answered question ids in submission order,
/// each with the list of chosen option ids, plus the claimed total number of
/// questions, used only as the percentage denominator.
pub struct SubmitAnswersPayload {
    pub answers: Vec<(String, Vec<String>)>,
    pub total_questions: usize,
}

/// Per-question feedback for one graded entry.
pub struct QuestionResult {
    pub question_id: String,
    pub is_correct: bool,
    pub correct_option_ids: Vec<String>,
    pub submitted_answers: Vec<String>,
}

/// The aggregate outcome of grading a submission.
pub struct SubmitResult {
    pub score: usize,
    pub total_questions: usize,
    pub percentage_correct: String,
    pub results: Vec<QuestionResult>,
}

/// The ids of a sequence of questions, as a sequence.
pub open spec fn question_id_seq(qs: Seq<Question>) -> Seq<Seq<char>> {
    qs.map_values(|q: Question| q.id@)
}

/// The ids of a sequence of questions, as a set.
pub open spec fn question_ids(qs: Seq<Question>) -> Set<Seq<char>> {
    question_id_seq(qs).to_set()
}

/// No two questions of the sequence share an id.
pub open spec fn unique_question_ids(qs: Seq<Question>) -> bool {
    forall|i: int, j: int| 0 <= i < j < qs.len() ==> qs[i].id@ != qs[j].id@
}

/// A question is well formed when its option ids are unique and its correct
/// option ids form a non-empty subset of the ids of its options.
pub open spec fn question_wf(q: Question) -> bool {
    &&& q.correct_option_ids@.len() > 0
    &&& (forall|i: int, j: int|
        0 <= i < j < q.options@.len() ==> q.options@[i].id@ != q.options@[j].id@)
    &&& (forall|i: int|
        0 <= i < q.correct_option_ids@.len() ==> (exists|k: int|
            0 <= k < q.options@.len() && (#[trigger] q.options@[k].id@)
                == (#[trigger] q.correct_option_ids@[i])@))
}

/// A catalog is well formed when its question ids are unique and every
/// question is well formed.
pub open spec fn catalog_wf(d: QuizData) -> bool {
    &&& unique_question_ids(d.questions@)
    &&& (forall|i: int| 0 <= i < d.questions@.len() ==> question_wf(#[trigger] d.questions@[i]))
}

} // verus!
