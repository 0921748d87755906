//! What the community is told: the answer to a request and the announcement
//! of a verdict.

use vstd::prelude::*;
use vstd::string::*;
use crate::command::{token_of, Kind, TokenView};
use crate::coordinator::Outcome;
use crate::decimal::{decimal, lemma_decimal_reads_back, push_decimal};
use crate::finalizer::Verdict;

verus! {

/// Why a request was turned down.
#[derive(Clone, Copy, Debug, PartialEq, Eq, Structural)]
pub enum Notice {
    NominationsClosed,
    VotingClosed,
    AlreadyNominated,
    AlreadyVoted,
    NotNominee,
}

/// How a request is answered.
#[derive(Clone, Copy, Debug, PartialEq, Eq, Structural)]
pub enum Response {
    /// Not at all.
    Silence,
    /// With a mark of success on the message that carried the request.
    Acknowledge,
    /// With a reply to the message that carried the request.
    Reply(Notice),
}

/// The answer to a request of `kind` that came to `outcome`. What was
/// recorded is acknowledged, what the rules turn down is answered with the
/// reason, and a target that names nobody or a failure is passed over in
/// silence.
pub open spec fn response_of(kind: Kind, outcome: Outcome) -> Response {
    match outcome {
        Outcome::Nominated => Response::Acknowledge,
        Outcome::Voted { tally } => Response::Acknowledge,
        Outcome::Inadmissible => match kind {
            Kind::Nominate => Response::Reply(Notice::NominationsClosed),
            Kind::Vote => Response::Reply(Notice::VotingClosed),
        },
        Outcome::AlreadyNominated => Response::Reply(Notice::AlreadyNominated),
        Outcome::AlreadyVoted => Response::Reply(Notice::AlreadyVoted),
        Outcome::NotNominee => Response::Reply(Notice::NotNominee),
        Outcome::Unresolved => Response::Silence,
        Outcome::Failed => Response::Silence,
    }
}

/// The text that mentions the participant `id`.
pub open spec fn mention_text(id: u64) -> Seq<char> {
    "<@"@ + decimal(id as nat) + ">"@
}

/// The announcement of `verdict`, where there is something to announce.
pub open spec fn announcement_of(verdict: Verdict) -> Option<Seq<char>> {
    match verdict {
        Verdict::Winner(best) => Some(
            "The election is over: "@ + mention_text(best.nominee) + " has won with "@ + decimal(
                best.tally as nat,
            ) + " vote(s)."@,
        ),
        Verdict::NoNominees => Some("The election is over: nobody was nominated."@),
        _ => None,
    }
}

impl Notice {
    /// The words of the notice.
    pub open spec fn wording(self) -> Seq<char> {
        match self {
            Notice::NominationsClosed => "Nominations are not open right now!"@,
            Notice::VotingClosed => "Voting is not open right now!"@,
            Notice::AlreadyNominated => "You've already nominated in this election!"@,
            Notice::AlreadyVoted => "You've already voted in this election!"@,
            Notice::NotNominee => "That user has not been nominated!"@,
        }
    }

    /// The words of the notice.
    pub fn text(self) -> (words: &'static str)
        ensures
            words@ == self.wording(),
    {
        match self {
            Notice::NominationsClosed => "Nominations are not open right now!",
            Notice::VotingClosed => "Voting is not open right now!",
            Notice::AlreadyNominated => "You've already nominated in this election!",
            Notice::AlreadyVoted => "You've already voted in this election!",
            Notice::NotNominee => "That user has not been nominated!",
        }
    }
}

/// The mark of success that acknowledges a request.
pub fn success_reaction() -> (mark: &'static str)
    ensures
        mark@ == "\u{2705}"@,
{
    "\u{2705}"
}

/// Says how a request of `kind` that came to `outcome` is answered.
pub fn respond(kind: Kind, outcome: Outcome) -> (response: Response)
    ensures
        response == response_of(kind, outcome),
{
    match outcome {
        Outcome::Nominated => Response::Acknowledge,
        Outcome::Voted { tally } => Response::Acknowledge,
        Outcome::Inadmissible => match kind {
            Kind::Nominate => Response::Reply(Notice::NominationsClosed),
            Kind::Vote => Response::Reply(Notice::VotingClosed),
        },
        Outcome::AlreadyNominated => Response::Reply(Notice::AlreadyNominated),
        Outcome::AlreadyVoted => Response::Reply(Notice::AlreadyVoted),
        Outcome::NotNominee => Response::Reply(Notice::NotNominee),
        Outcome::Unresolved => Response::Silence,
        Outcome::Failed => Response::Silence,
    }
}

/// Writes the text that mentions the participant `id`.
pub fn mention(id: u64) -> (text: String)
    ensures
        text@ == mention_text(id),
{
    let mut text: String = String::from_str("<@");
    push_decimal(&mut text, id);
    text.append(">");
    text
}

/// Writes the announcement of `verdict`, where there is something to
/// announce.
pub fn announce(verdict: Verdict) -> (text: Option<String>)
    ensures
        match text {
            Some(written) => announcement_of(verdict) == Some(written@),
            None => announcement_of(verdict) is None,
        },
{
    match verdict {
        Verdict::Winner(best) => {
            let mut text: String = String::from_str("The election is over: ");
            let name: String = mention(best.nominee);
            text.append(name.as_str());
            text.append(" has won with ");
            push_decimal(&mut text, best.tally);
            text.append(" vote(s).");
            Some(text)
        },
        Verdict::NoNominees => Some(String::from_str("The election is over: nobody was nominated.")),
        _ => None,
    }
}

/// A mention is read back as the participant it mentions.
pub proof fn lemma_mention_round_trip(id: u64)
    requires
        id != 0,
    ensures
        token_of(mention_text(id)) == Some(TokenView::Mention(id)),
{
    reveal_strlit("<@");
    reveal_strlit(">");
    lemma_decimal_reads_back(id as nat);
    let text = mention_text(id);
    let body = text.subrange(2, text.len() - 1);
    assert(body =~= decimal(id as nat));
    assert(body[0] != '+');
}

} // verus!
