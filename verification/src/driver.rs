//! Running the machine with a host that answers its requests. The lines
//! that the program prints are collected; writing them is left to the
//! caller.

use vstd::prelude::*;
use crate::evaluation::{hosted_run, hosted_step, Host, Hosted, LineView};
use crate::interpreter::{Action, Interpreter, InterpreterView, Request, RequestView};
use crate::value::{RuntimeError, RuntimeErrorView};

verus! {

/// A line that a program prints: a text, or a number whose text the host
/// knows.
#[derive(Debug)]
pub enum Line {
    Text(String),
    Number(u64),
}

impl View for Line {
    type V = LineView;

    open spec fn view(&self) -> LineView {
        match self {
            Line::Text(t) => LineView::Text(t@),
            Line::Number(n) => LineView::Number(*n),
        }
    }
}

impl DeepView for Line {
    type V = LineView;

    open spec fn deep_view(&self) -> LineView {
        self@
    }
}

/// How a run has ended.
#[derive(Debug)]
pub enum Outcome {
    /// The program has come to its end.
    Finished,
    /// The program has failed.
    Failed(RuntimeError),
    /// The steps that were allowed have been taken; the program can be
    /// run on.
    Paused,
}

/// The error with which a run has ended, if it has failed.
pub open spec fn failure(outcome: Outcome) -> Option<RuntimeErrorView> {
    match outcome {
        Outcome::Failed(e) => Some(e@),
        _ => None,
    }
}

/// A machine at the beginning of a run, with the lines printed before.
pub open spec fn beginning(state: InterpreterView, printed: Seq<LineView>) -> Hosted {
    Hosted { state, asked: 0, printed, failed: None }
}

/// The host that gives the replies in their order.
pub open spec fn scripted(replies: Seq<u64>) -> Host {
    |k: nat, r: RequestView|
        if k < replies.len() {
            replies[k as int]
        } else {
            0
        }
}

/// Whether `host` may have given the replies in the first `n` steps of a
/// run from `h`: each is a number that it can return for the request that
/// the machine had made.
pub open spec fn permitted<F: Fn(&Request) -> u64>(
    host: &F,
    h: Hosted,
    replies: Seq<u64>,
    n: nat,
) -> bool
    decreases n,
{
    if n == 0 {
        true
    } else {
        let before = hosted_run(h, scripted(replies), (n - 1) as nat);
        &&& permitted(host, h, replies, (n - 1) as nat)
        &&& before.state.pending matches Some(r) ==> before.asked < replies.len() && exists|
            q: Request,
        |
            q@ == r && call_ensures(host, (&q,), replies[before.asked as int])
    }
}

/// A run never takes back a request.
proof fn lemma_asked(h: Hosted, host: Host, n: nat)
    ensures
        hosted_run(h, host, n).asked >= h.asked,
        h.state.pending is Some && n > 0 ==> hosted_run(h, host, n).asked > h.asked,
    decreases n,
{
    if n > 0 {
        lemma_asked(hosted_step(h, host), host, (n - 1) as nat);
    }
}

/// A run that has asked for no more replies than there are goes the same
/// way when a reply is added.
proof fn lemma_more_replies(h: Hosted, replies: Seq<u64>, x: u64, n: nat)
    requires
        hosted_run(h, scripted(replies), n).asked <= replies.len(),
    ensures
        hosted_run(h, scripted(replies.push(x)), n) == hosted_run(h, scripted(replies), n),
    decreases n,
{
    if n > 0 {
        let old_host = scripted(replies);
        let new_host = scripted(replies.push(x));
        lemma_asked(h, old_host, n);
        if h.state.pending is Some {
            assert(h.asked < replies.len());
            assert(replies.push(x)[h.asked as int] == replies[h.asked as int]);
        }
        assert(hosted_step(h, new_host) == hosted_step(h, old_host));
        lemma_more_replies(hosted_step(h, old_host), replies, x, (n - 1) as nat);
    }
}

/// Replies that were permitted stay so when a reply is added.
proof fn lemma_permitted_more<F: Fn(&Request) -> u64>(
    host: &F,
    h: Hosted,
    replies: Seq<u64>,
    x: u64,
    n: nat,
)
    requires
        permitted(host, h, replies, n),
        hosted_run(h, scripted(replies), n).asked <= replies.len(),
    ensures
        permitted(host, h, replies.push(x), n),
    decreases n,
{
    if n > 0 {
        let m = (n - 1) as nat;
        crate::simulation::lemma_run_split(h, scripted(replies), m, 1);
        let before = hosted_run(h, scripted(replies), m);
        lemma_asked(before, scripted(replies), 1);
        lemma_permitted_more(host, h, replies, x, m);
        lemma_more_replies(h, replies, x, m);
        if before.state.pending is Some {
            assert(replies.push(x)[before.asked as int] == replies[before.asked as int]);
        }
    }
}

impl Interpreter {
    /// Takes up to `fuel` steps with the host `host`, which answers each
    /// request of the machine, and adds the lines that are printed to
    /// `lines`.
    ///
    /// The run is one of the machine with a host that gave some replies
    /// that `host` can give: after `n` steps of that run the machine, the
    /// lines, and the failure are as they are left here.
    pub fn drive<F: Fn(&Request) -> u64>(&mut self, host: &F, fuel: usize, lines: &mut Vec<Line>)
        -> (outcome: Outcome)
        requires
            forall|r: &Request| call_requires(host, (r,)),
        ensures
            exists|replies: Seq<u64>, n: nat|
                {
                    &&& n <= fuel
                    &&& #[trigger] permitted(
                        host,
                        beginning(old(self)@, old(lines).deep_view()),
                        replies,
                        n,
                    )
                    &&& hosted_run(
                        beginning(old(self)@, old(lines).deep_view()),
                        scripted(replies),
                        n,
                    ) == (Hosted {
                        state: final(self)@,
                        asked: replies.len(),
                        printed: final(lines).deep_view(),
                        failed: failure(outcome),
                    })
                    &&& outcome is Paused ==> n == fuel
                },
            outcome is Finished ==> final(self)@.tasks.len() == 0 && final(self)@.pending is None,
    {
        let ghost start = beginning(self@, lines.deep_view());
        let ghost mut replies: Seq<u64> = Seq::empty();
        let ghost mut n: nat = 0;
        let mut left: usize = fuel;
        while left > 0
            invariant
                forall|r: &Request| call_requires(host, (r,)),
                start == beginning(old(self)@, old(lines).deep_view()),
                n + left == fuel,
                permitted(host, start, replies, n),
                hosted_run(start, scripted(replies), n) == (Hosted {
                    state: self@,
                    asked: replies.len(),
                    printed: lines.deep_view(),
                    failed: None,
                }),
            decreases left,
        {
            let ghost before = hosted_run(start, scripted(replies), n);
            let ghost printed = lines.deep_view();
            let reply = match self.request() {
                Some(q) => {
                    let x = host(q);
                    proof {
                        lemma_more_replies(start, replies, x, n);
                        lemma_permitted_more(host, start, replies, x, n);
                        replies = replies.push(x);
                        assert(q@ == before.state.pending->0 && call_ensures(host, (q,), x));
                        assert(exists|p: Request|
                            p@ == before.state.pending->0 && call_ensures(
                                host,
                                (&p,),
                                replies[before.asked as int],
                            ));
                    }
                    Some(x)
                },
                None => None,
            };
            let action = self.step(reply);
            proof {
                crate::simulation::lemma_run_split(start, scripted(replies), n, 1);
                assert(hosted_run(before, scripted(replies), 1) == hosted_step(
                    before,
                    scripted(replies),
                )) by {
                    assert(hosted_run(hosted_step(before, scripted(replies)), scripted(replies), 0)
                        == hosted_step(before, scripted(replies)));
                }
                n = n + 1;
                assert(hosted_run(start, scripted(replies), (n - 1) as nat) == before);
                assert(permitted(host, start, replies, n));
                assert(hosted_run(start, scripted(replies), n) == hosted_step(
                    before,
                    scripted(replies),
                ));
            }
            left -= 1;
            match action {
                Action::Print(text) => {
                    let line = Line::Text(text);
                    lines.push(line);
                    assert(lines.deep_view() =~= printed.push(line@));
                },
                Action::PrintNumber(bits) => {
                    let line = Line::Number(bits);
                    lines.push(line);
                    assert(lines.deep_view() =~= printed.push(line@));
                },
                Action::Finished => {
                    return Outcome::Finished;
                },
                Action::Failed(e) => {
                    return Outcome::Failed(e);
                },
                _ => {},
            }
        }
        Outcome::Paused
    }
}

} // verus!
