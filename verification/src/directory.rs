//! The participant directory: from the target of a command to the identity
//! of a member of the community.

use vstd::prelude::*;
use vstd::string::*;
use crate::command::{Token, TokenView};

verus! {

/// A member of the community, as far as an election needs to know one.
#[derive(Clone, Debug, PartialEq, Eq)]
pub struct Participant {
    pub id: u64,
    pub name: String,
}

/// Whether `token` names `member`: a mention names the member with that
/// identity, a name the member with exactly that name.
pub open spec fn names(token: TokenView, member: Participant) -> bool {
    match token {
        TokenView::Mention(id) => member.id == id,
        TokenView::Name(name) => member.name@ == name,
    }
}

/// The identity of the first of `members` that `token` names.
pub open spec fn resolve_in(token: TokenView, members: Seq<Participant>) -> Option<u64>
    decreases members.len(),
{
    if members.len() == 0 {
        None
    } else if names(token, members.first()) {
        Some(members.first().id)
    } else {
        resolve_in(token, members.drop_first())
    }
}

/// Looks `token` up among `members`.
///
/// The answer is the identity of the first member that the token names.
/// There is none when the token names no member; that is no error.
pub fn resolve(token: &Token, members: &Vec<Participant>) -> (found: Option<u64>)
    ensures
        found == resolve_in(token@, members@),
{
    let mut i: usize = 0;
    assert(members@.skip(0) =~= members@);
    while i < members.len()
        invariant
            i <= members.len(),
            resolve_in(token@, members@) == resolve_in(token@, members@.skip(i as int)),
        decreases members.len() - i,
    {
        let member: &Participant = &members[i];
        let named: bool = match token {
            Token::Mention(id) => member.id == *id,
            Token::Name(name) => member.name == *name,
        };
        assert(members@.skip(i as int).first() == members@[i as int]);
        assert(members@.skip(i as int).drop_first() =~= members@.skip(i + 1));
        if named {
            return Some(member.id);
        }
        i = i + 1;
    }
    None
}

/// `resolve_in` finds a member exactly when the token names one, and then it
/// finds the first that the token names.
pub proof fn lemma_resolve_finds_first(token: TokenView, members: Seq<Participant>)
    ensures
        resolve_in(token, members) is None <==> forall|i: int|
            0 <= i < members.len() ==> !names(token, #[trigger] members[i]),
        resolve_in(token, members) matches Some(id) ==> exists|i: int|
            0 <= i < members.len() && names(token, #[trigger] members[i]) && members[i].id == id
                && forall|j: int| 0 <= j < i ==> !names(token, #[trigger] members[j]),
    decreases members.len(),
{
    if members.len() > 0 {
        let rest = members.drop_first();
        lemma_resolve_finds_first(token, rest);
        if names(token, members.first()) {
            assert(names(token, members[0]) && members[0].id == resolve_in(token, members)->0);
        } else {
            assert forall|i: int| 0 <= i < rest.len() implies rest[i] == members[i + 1] by {}
            if resolve_in(token, rest) is None {
                assert forall|i: int| 0 <= i < members.len() implies !names(
                    token,
                    #[trigger] members[i],
                ) by {
                    if i > 0 {
                        assert(rest[i - 1] == members[i]);
                    }
                }
            } else {
                let id = resolve_in(token, rest)->0;
                let at = choose|i: int|
                    0 <= i < rest.len() && names(token, #[trigger] rest[i]) && rest[i].id == id
                        && forall|j: int| 0 <= j < i ==> !names(token, #[trigger] rest[j]);
                assert(names(token, members[at + 1]) && members[at + 1].id == id);
                assert forall|j: int| 0 <= j < at + 1 implies !names(
                    token,
                    #[trigger] members[j],
                ) by {
                    if j > 0 {
                        assert(rest[j - 1] == members[j]);
                    }
                }
            }
        }
    }
}

} // verus!
