//! Unpacking one archive with a list of candidate passwords: first without
//! a password, then with each non-blank password in turn, until an attempt
//! succeeds. The archiver runs outside; each attempt's outcome comes back
//! here.
use vstd::prelude::*;
use crate::text::{str_eq, strings_view, trim, trim_str};

verus! {

/// The passwords worth trying: those that are not blank, in order.
pub open spec fn usable_passwords(passwords: Seq<Seq<char>>) -> Seq<Seq<char>>
    decreases passwords.len(),
{
    if passwords.len() == 0 {
        seq![]
    } else if trim(passwords.last()).len() > 0 {
        usable_passwords(passwords.drop_last()).push(passwords.last())
    } else {
        usable_passwords(passwords.drop_last())
    }
}

/// The attempts, in order: no password, then each usable password.
pub open spec fn attempt_list(passwords: Seq<Seq<char>>) -> Seq<Option<Seq<char>>> {
    seq![None] + usable_passwords(passwords).map_values(|p: Seq<char>| Some(p))
}

/// The error reported when every attempt failed, the last with `e`.
pub open spec fn all_failed_message(e: Seq<char>) -> Seq<char> {
    "密码错误或文件损坏: "@ + e
}

/// What the attempts ask for next: the password to try (`None`: no
/// password), or the final outcome.
pub enum AttemptStep {
    Try(Option<String>),
    Done(Result<(), String>),
}

/// An attempt step, as text.
pub enum AttemptStepView {
    Try(Option<Seq<char>>),
    Done(Result<(), Seq<char>>),
}

impl View for AttemptStep {
    type V = AttemptStepView;

    open spec fn view(&self) -> AttemptStepView {
        match self {
            AttemptStep::Try(None) => AttemptStepView::Try(None),
            AttemptStep::Try(Some(p)) => AttemptStepView::Try(Some(p@)),
            AttemptStep::Done(Ok(())) => AttemptStepView::Done(Ok(())),
            AttemptStep::Done(Err(e)) => AttemptStepView::Done(Err(e@)),
        }
    }
}

/// Where a series of attempts stands: the index of the current attempt,
/// and the outcome once there is one.
pub struct AttemptState {
    pub current: nat,
    pub outcome: Option<Result<(), Seq<char>>>,
}

/// The step asked for in state `s`.
pub open spec fn attempt_step(list: Seq<Option<Seq<char>>>, s: AttemptState) -> AttemptStepView {
    match s.outcome {
        Some(r) => AttemptStepView::Done(r),
        None => AttemptStepView::Try(list[s.current as int]),
    }
}

/// The state after the current attempt ended with `r`: a success ends the
/// series; a failure moves to the next attempt, or, after the last one,
/// ends the series with that failure's message.
pub open spec fn after_attempt(list: Seq<Option<Seq<char>>>, s: AttemptState, r: Result<(), Seq<char>>) -> AttemptState {
    if s.outcome is Some {
        s
    } else {
        match r {
            Ok(()) => AttemptState { current: s.current, outcome: Some(Ok(())) },
            Err(e) => if s.current + 1 < list.len() {
                AttemptState { current: s.current + 1, outcome: None }
            } else {
                AttemptState { current: s.current, outcome: Some(Err(all_failed_message(e))) }
            },
        }
    }
}

/// The state after a series of outcomes, from the start.
pub open spec fn attempts_after(list: Seq<Option<Seq<char>>>, outcomes: Seq<Result<(), Seq<char>>>) -> AttemptState
    decreases outcomes.len(),
{
    if outcomes.len() == 0 {
        AttemptState { current: 0, outcome: None }
    } else {
        after_attempt(list, attempts_after(list, outcomes.drop_last()), outcomes.last())
    }
}

/// The attempts for one archive.
pub struct PasswordAttempts {
    list: Vec<Option<String>>,
    current: usize,
    outcome: Option<Result<(), String>>,
}

/// The text of an optional string.
pub open spec fn opt_text(o: Option<String>) -> Option<Seq<char>> {
    match o {
        Some(s) => Some(s@),
        None => None,
    }
}

impl PasswordAttempts {
    /// The attempts, in order.
    pub closed spec fn list(&self) -> Seq<Option<Seq<char>>> {
        self.list@.map_values(|o: Option<String>| opt_text(o))
    }

    /// Where the series stands.
    pub closed spec fn state(&self) -> AttemptState {
        AttemptState {
            current: self.current as nat,
            outcome: match self.outcome {
                Some(Ok(())) => Some(Ok(())),
                Some(Err(e)) => Some(Err(e@)),
                None => None,
            },
        }
    }

    /// The series is well formed.
    pub closed spec fn wf(&self) -> bool {
        self.current < self.list@.len()
    }

    /// The attempts for `passwords`, before the first one.
    pub fn new(passwords: &Vec<String>) -> (r: PasswordAttempts)
        ensures
            r.wf(),
            r.list() == attempt_list(strings_view(passwords@)),
            r.state() == (AttemptState { current: 0, outcome: None }),
    {
        let mut list: Vec<Option<String>> = Vec::new();
        list.push(None);
        let ghost ps = strings_view(passwords@);
        let mut i: usize = 0;
        while i < passwords.len()
            invariant
                i <= passwords@.len(),
                ps == strings_view(passwords@),
                list@.map_values(|o: Option<String>| opt_text(o)) == seq![None] + usable_passwords(ps.take(i as int)).map_values(
                    |p: Seq<char>| Some(p),
                ),
            decreases passwords@.len() - i,
        {
            let ghost l0 = list@.map_values(|o: Option<String>| opt_text(o));
            let ghost t = ps.take(i + 1);
            assert(t.drop_last() =~= ps.take(i as int));
            assert(t.last() == passwords@[i as int]@);
            let trimmed = trim_str(passwords[i].as_str());
            if trimmed.as_str().unicode_len() > 0 {
                list.push(Some(passwords[i].clone()));
                assert(list@.map_values(|o: Option<String>| opt_text(o)) =~= l0.push(Some(passwords@[i as int]@)));
                assert(usable_passwords(t) == usable_passwords(ps.take(i as int)).push(t.last()));
                assert(usable_passwords(t).map_values(|p: Seq<char>| Some(p)) =~= usable_passwords(ps.take(i as int)).map_values(
                    |p: Seq<char>| Some(p),
                ).push(Some(t.last())));
                assert(list@.map_values(|o: Option<String>| opt_text(o)) =~= seq![None] + usable_passwords(t).map_values(
                    |p: Seq<char>| Some(p),
                ));
            }
            i = i + 1;
        }
        assert(ps.take(passwords@.len() as int) =~= ps);
        PasswordAttempts { list, current: 0, outcome: None }
    }

    /// What to do next.
    pub fn step(&self) -> (r: AttemptStep)
        requires
            self.wf(),
        ensures
            r@ == attempt_step(self.list(), self.state()),
    {
        match &self.outcome {
            Some(Ok(())) => AttemptStep::Done(Ok(())),
            Some(Err(e)) => AttemptStep::Done(Err(e.clone())),
            None => {
                proof {
                    assert(self.list()[self.current as int] == opt_text(self.list@[self.current as int]));
                }
                match &self.list[self.current] {
                    Some(p) => AttemptStep::Try(Some(p.clone())),
                    None => AttemptStep::Try(None),
                }
            },
        }
    }

    /// Takes the outcome of the current attempt.
    pub fn report(&mut self, r: Result<(), String>)
        requires
            old(self).wf(),
        ensures
            final(self).wf(),
            final(self).list() == old(self).list(),
            final(self).state() == after_attempt(
                old(self).list(),
                old(self).state(),
                match r {
                    Ok(()) => Ok(()),
                    Err(e) => Err(e@),
                },
            ),
    {
        if self.outcome.is_some() {
            return;
        }
        match r {
            Ok(()) => {
                self.outcome = Some(Ok(()));
            },
            Err(e) => {
                if self.list.len() - self.current > 1 {
                    self.current = self.current + 1;
                } else {
                    let mut msg = String::from_str("密码错误或文件损坏: ");
                    msg.append(e.as_str());
                    self.outcome = Some(Err(msg));
                }
            },
        }
    }
}

/// Whether the archiver named by `exe_type` is 7-Zip (`7z`); anything else
/// means Bandizip.
pub fn is_seven_zip(exe_type: &str) -> (r: bool)
    ensures
        r == (exe_type@ == "7z"@),
{
    str_eq(exe_type, "7z")
}

/// The attempts are made in order, none is skipped, and the series ends at
/// the first success; if all fail, it ends with the last failure's message.
/// That is: after `k` failed attempts the current attempt is the next in
/// the list, while any remain; a success after them ends the series with
/// success; and when as many failures as attempts have come, the series
/// ends with the error of the last.
pub proof fn lemma_attempt_order(list: Seq<Option<Seq<char>>>, outcomes: Seq<Result<(), Seq<char>>>)
    requires
        list.len() >= 1,
        outcomes.len() <= list.len(),
        forall|i: int| 0 <= i < outcomes.len() - 1 ==> #[trigger] outcomes[i] is Err,
    ensures
        (outcomes.len() == 0 || outcomes.last() is Err) ==> outcomes.len() < list.len() ==> attempts_after(list, outcomes)
            == (AttemptState { current: outcomes.len(), outcome: None }),
        outcomes.len() > 0 && outcomes.last() is Ok ==> attempts_after(list, outcomes) == (AttemptState {
            current: (outcomes.len() - 1) as nat,
            outcome: Some(Ok(())),
        }),
        outcomes.len() == list.len() ==> (outcomes.last() matches Err(e) ==> attempts_after(list, outcomes) == (AttemptState {
            current: (list.len() - 1) as nat,
            outcome: Some(Err(all_failed_message(e))),
        })),
    decreases outcomes.len(),
{
    if outcomes.len() > 0 {
        let prev = outcomes.drop_last();
        assert forall|i: int| 0 <= i < prev.len() - 1 implies #[trigger] prev[i] is Err by {
            assert(prev[i] == outcomes[i]);
        }
        if prev.len() > 0 {
            assert(prev.last() == outcomes[outcomes.len() - 2]);
        }
        lemma_attempt_order(list, prev);
    }
}

} // verus!
