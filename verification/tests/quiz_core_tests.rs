use quiz_core::data::{Question, QuizData, QuizOption, SubmitAnswersPayload};
use quiz_core::grader::grade;
use quiz_core::percent::format_percentage;
use quiz_core::sample::sample;

fn opt(id: &str) -> QuizOption {
    QuizOption { id: id.to_string(), text: format!("option {}", id) }
}

fn question(id: &str, option_ids: &[&str], correct: &[&str]) -> Question {
    Question {
        id: id.to_string(),
        text: format!("question {}", id),
        options: option_ids.iter().map(|o| opt(o)).collect(),
        correct_option_ids: correct.iter().map(|c| c.to_string()).collect(),
        explanation: None,
    }
}

fn catalog(questions: Vec<Question>) -> QuizData {
    QuizData { title: "Sample Quiz".to_string(), questions }
}

fn five_question_catalog() -> QuizData {
    catalog(vec![
        question("q1", &["a", "b"], &["a"]),
        question("q2", &["a", "b", "c"], &["b"]),
        question("q3", &["a", "b", "c"], &["a", "c"]),
        question("q4", &["a", "b"], &["b"]),
        question("q5", &["a", "b", "c", "d"], &["b", "d"]),
    ])
}

fn submission(entries: &[(&str, &[&str])], total_questions: usize) -> SubmitAnswersPayload {
    SubmitAnswersPayload {
        answers: entries
            .iter()
            .map(|(q, opts)| (q.to_string(), opts.iter().map(|o| o.to_string()).collect()))
            .collect(),
        total_questions,
    }
}

fn ids(quiz: &QuizData) -> Vec<String> {
    quiz.questions.iter().map(|q| q.id.clone()).collect()
}

#[test]
fn sample_zero_returns_empty() {
    let quiz = five_question_catalog();
    let sampled = sample(quiz, 0);
    assert_eq!(sampled.title, "Sample Quiz");
    assert!(sampled.questions.is_empty());
}

#[test]
fn sample_length_is_min_of_count_and_size() {
    for count in 0..8usize {
        let sampled = sample(five_question_catalog(), count);
        assert_eq!(sampled.questions.len(), count.min(5));
    }
}

#[test]
fn sample_has_distinct_ids_from_the_catalog() {
    let original_ids = ids(&five_question_catalog());
    for count in 1..8usize {
        let sampled = sample(five_question_catalog(), count);
        let sampled_ids = ids(&sampled);
        for (i, id) in sampled_ids.iter().enumerate() {
            assert!(original_ids.contains(id));
            for other in sampled_ids.iter().skip(i + 1) {
                assert_ne!(id, other);
            }
        }
    }
}

#[test]
fn sample_beyond_size_returns_whole_catalog() {
    let sampled = sample(five_question_catalog(), 100);
    let mut sampled_ids = ids(&sampled);
    sampled_ids.sort();
    assert_eq!(sampled_ids, vec!["q1", "q2", "q3", "q4", "q5"]);
}

#[test]
fn sample_of_empty_catalog_is_empty() {
    for count in [0usize, 1, 10] {
        let sampled = sample(catalog(vec![]), count);
        assert!(sampled.questions.is_empty());
        assert_eq!(sampled.title, "Sample Quiz");
    }
}

#[test]
fn grading_empty_submission() {
    let quiz = five_question_catalog();
    let result = grade(&quiz, submission(&[], 5));
    assert_eq!(result.score, 0);
    assert!(result.results.is_empty());
    assert_eq!(result.total_questions, 5);
    assert_eq!(result.percentage_correct, "0.00");
}

#[test]
fn grading_single_answer_question() {
    let quiz = catalog(vec![question("q1", &["a", "b", "c"], &["b"])]);

    let right = grade(&quiz, submission(&[("q1", &["b"])], 1));
    assert_eq!(right.score, 1);
    assert!(right.results[0].is_correct);

    let wrong = grade(&quiz, submission(&[("q1", &["a"])], 1));
    assert_eq!(wrong.score, 0);
    assert!(!wrong.results[0].is_correct);

    let too_many = grade(&quiz, submission(&[("q1", &["a", "b"])], 1));
    assert_eq!(too_many.score, 0);
    assert!(!too_many.results[0].is_correct);
}

#[test]
fn grading_multi_answer_question() {
    let quiz = catalog(vec![question("q1", &["a", "b", "c"], &["a", "c"])]);

    let reordered = grade(&quiz, submission(&[("q1", &["c", "a"])], 1));
    assert_eq!(reordered.score, 1);
    assert!(reordered.results[0].is_correct);

    let partial = grade(&quiz, submission(&[("q1", &["a"])], 1));
    assert_eq!(partial.score, 0);
    assert!(!partial.results[0].is_correct);

    let extra = grade(&quiz, submission(&[("q1", &["a", "b", "c"])], 1));
    assert_eq!(extra.score, 0);
    assert!(!extra.results[0].is_correct);
}

#[test]
fn grading_dedups_submitted_ids_but_echoes_them_as_given() {
    let quiz = catalog(vec![question("q1", &["a", "b", "c"], &["a", "c"])]);
    let result = grade(&quiz, submission(&[("q1", &["a", "a", "c"])], 1));
    assert_eq!(result.score, 1);
    assert!(result.results[0].is_correct);
    assert_eq!(result.results[0].submitted_answers, vec!["a", "a", "c"]);
    assert_eq!(result.results[0].correct_option_ids, vec!["a", "c"]);
}

#[test]
fn question_without_correct_ids_is_never_correct() {
    let quiz = catalog(vec![Question {
        id: "q1".to_string(),
        text: "broken".to_string(),
        options: vec![opt("a")],
        correct_option_ids: vec![],
        explanation: None,
    }]);
    let result = grade(&quiz, submission(&[("q1", &[])], 1));
    assert!(!result.results[0].is_correct);
    let result = grade(&quiz, submission(&[("q1", &["a"])], 1));
    assert!(!result.results[0].is_correct);
    assert_eq!(result.score, 0);
}

#[test]
fn unknown_question_id_is_skipped() {
    let quiz = catalog(vec![question("q1", &["a", "b"], &["a"])]);
    let result = grade(&quiz, submission(&[("missing", &["a"]), ("q1", &["a"])], 2));
    assert_eq!(result.results.len(), 1);
    assert_eq!(result.results[0].question_id, "q1");
    assert_eq!(result.score, 1);
}

#[test]
fn results_follow_submission_order() {
    let quiz = five_question_catalog();
    let result = grade(&quiz, submission(&[("q4", &["b"]), ("q1", &["a"]), ("q3", &["a", "c"])], 3));
    let order: Vec<&str> = result.results.iter().map(|r| r.question_id.as_str()).collect();
    assert_eq!(order, vec!["q4", "q1", "q3"]);
    assert_eq!(result.score, 3);
}

#[test]
fn percentage_of_one_out_of_four() {
    assert_eq!(format_percentage(1, 4), "25.00");
}

#[test]
fn percentage_with_zero_total_is_fixed() {
    assert_eq!(format_percentage(0, 0), "0.00");
    assert_eq!(format_percentage(3, 0), "0.00");
}

#[test]
fn percentage_rounds_to_two_places() {
    assert_eq!(format_percentage(2, 3), "66.67");
    assert_eq!(format_percentage(1, 3), "33.33");
    assert_eq!(format_percentage(3, 3), "100.00");
    assert_eq!(format_percentage(0, 7), "0.00");
    assert_eq!(format_percentage(7, 7), "100.00");
}

#[test]
fn percentage_is_carried_into_the_summary() {
    let quiz = catalog(vec![question("q1", &["a", "b"], &["a"])]);
    let result = grade(&quiz, submission(&[("q1", &["a"])], 4));
    assert_eq!(result.score, 1);
    assert_eq!(result.total_questions, 4);
    assert_eq!(result.percentage_correct, "25.00");
}

#[test]
fn end_to_end_two_questions_all_correct() {
    let quiz = catalog(vec![
        question("Q1", &["x", "w"], &["x"]),
        question("Q2", &["y", "z", "w"], &["y", "z"]),
    ]);
    let result = grade(&quiz, submission(&[("Q1", &["x"]), ("Q2", &["y", "z"])], 2));
    assert_eq!(result.score, 2);
    assert_eq!(result.percentage_correct, "100.00");
    assert_eq!(result.results.len(), 2);
    assert!(result.results[0].is_correct);
    assert!(result.results[1].is_correct);
}
