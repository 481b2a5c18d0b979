use vstd::prelude::*;

verus! {

/// One multiple-choice option of a question.
#[derive(Debug, PartialEq, Eq)]
pub struct Answer {
    pub number: i32,
    pub text: String,
}

impl Clone for Answer {
    fn clone(&self) -> (res: Self)
        ensures
            res == *self,
    {
        Answer { number: self.number, text: self.text.clone() }
    }
}

/// One timed question: its text, its options, the number of the correct
/// option, and the countdown length in seconds.
#[derive(Debug, PartialEq, Eq)]
pub struct Question {
    pub text: String,
    pub answers: Vec<Answer>,
    pub correct_answer: i32,
    pub duration_sec: i32,
}

/// A quiz: a finite ordered sequence of questions.
#[derive(Debug, PartialEq, Eq)]
pub struct Pack {
    pub name: String,
    pub questions: Vec<Question>,
}

/// An answer submission forwarded into a running game.
#[derive(Debug, PartialEq, Eq)]
pub struct GameCommand {
    pub user_id: String,
    pub answer: i32,
}

/// One user's entry in a per-game map from user id to an integer, used both
/// for the answer snapshot and for the score table.
#[derive(Debug, PartialEq, Eq)]
pub struct ScoreEntry {
    pub user_id: String,
    pub value: i32,
}

impl Clone for ScoreEntry {
    fn clone(&self) -> (res: Self)
        ensures
            res == *self,
    {
        ScoreEntry { user_id: self.user_id.clone(), value: self.value }
    }
}

} // verus!
