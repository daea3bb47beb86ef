//! A quiz-serving and grading core: a catalog of multiple-choice questions,
//! random sampling of question subsets, and grading of submitted answers.

pub mod data;
pub mod grader;
pub mod percent;
pub mod sample;
