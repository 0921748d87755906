//! Commands as they arrive in chat: the text of a message is split into
//! words, the first word selects the action and the second names its target.

use vstd::prelude::*;
use vstd::string::*;
use crate::decimal::{all_digits, chars_of, value};
use twilight_model::id::marker::UserMarker;
use twilight_model::id::Id;

verus! {

/// The two things a participant can ask for.
#[derive(Clone, Copy, Debug, PartialEq, Eq, Structural)]
pub enum Kind {
    Nominate,
    Vote,
}

/// A command taken from a message: what is asked for, and the word that names
/// whom it is asked for.
#[derive(Clone, Debug, PartialEq, Eq)]
pub struct Command {
    pub kind: Kind,
    pub target: String,
}

/// The target of a command: a mention of a participant by identity, or a
/// participant's name.
#[derive(Clone, Debug, PartialEq, Eq)]
pub enum Token {
    Mention(u64),
    Name(String),
}

/// A target as contracts see it.
pub ghost enum TokenView {
    Mention(u64),
    Name(Seq<char>),
}

impl View for Token {
    type V = TokenView;

    open spec fn view(&self) -> TokenView {
        match *self {
            Token::Mention(id) => TokenView::Mention(id),
            Token::Name(name) => TokenView::Name(name@),
        }
    }
}

/// Whether `c` separates words: the characters that Unicode gives the
/// property White_Space.
pub open spec fn is_space(c: char) -> bool {
    let code = c as u32;
    ||| 0x09 <= code <= 0x0D
    ||| code == 0x20
    ||| code == 0x85
    ||| code == 0xA0
    ||| code == 0x1680
    ||| 0x2000 <= code <= 0x200A
    ||| code == 0x2028
    ||| code == 0x2029
    ||| code == 0x202F
    ||| code == 0x205F
    ||| code == 0x3000
}

/// The first position at or after `from` that holds no separator, or the end
/// of the text.
pub open spec fn skip_spaces(text: Seq<char>, from: int) -> int
    decreases text.len() - from,
{
    if 0 <= from < text.len() && is_space(text[from]) {
        skip_spaces(text, from + 1)
    } else {
        from
    }
}

/// The first position at or after `from` that holds a separator, or the end
/// of the text.
pub open spec fn skip_word(text: Seq<char>, from: int) -> int
    decreases text.len() - from,
{
    if 0 <= from < text.len() && !is_space(text[from]) {
        skip_word(text, from + 1)
    } else {
        from
    }
}

/// The command that a message with the text `content` carries, for the
/// command prefix `prefix`: its kind and the word that names its target.
///
/// A message carries a command when its text begins with the prefix and the
/// first word after the prefix is `nominate` or `vote` and a second word
/// follows. Every other message carries none.
pub open spec fn command_of(prefix: Seq<char>, content: Seq<char>) -> Option<(Kind, Seq<char>)> {
    if !prefix.is_prefix_of(content) {
        None
    } else {
        let verb_start = skip_spaces(content, prefix.len() as int);
        let verb_end = skip_word(content, verb_start);
        let target_start = skip_spaces(content, verb_end);
        let target_end = skip_word(content, target_start);
        let verb = content.subrange(verb_start, verb_end);
        let target = content.subrange(target_start, target_end);
        if target_start == target_end {
            None
        } else if verb == "nominate"@ {
            Some((Kind::Nominate, target))
        } else if verb == "vote"@ {
            Some((Kind::Vote, target))
        } else {
            None
        }
    }
}

/// The identity that `text` writes: an optional `+`, then one or more
/// numerals that stand for a number from 1 to the largest a `u64` holds.
pub open spec fn user_id(text: Seq<char>) -> Option<u64> {
    let digits = if text.len() > 0 && text[0] == '+' {
        text.skip(1)
    } else {
        text
    };
    if digits.len() > 0 && all_digits(digits) && 0 < value(digits) <= u64::MAX {
        Some(value(digits) as u64)
    } else {
        None
    }
}

/// What stands between `<@` and `>` when `word` has the shape of a mention.
pub open spec fn mention_body(word: Seq<char>) -> Option<Seq<char>> {
    if word.len() >= 3 && word[0] == '<' && word[1] == '@' && word.last() == '>' {
        Some(word.subrange(2, word.len() - 1))
    } else {
        None
    }
}

/// The target that `word` names. A word in the shape of a mention names the
/// identity written in it, and nothing if no identity is written there; any
/// other word is a name.
pub open spec fn token_of(word: Seq<char>) -> Option<TokenView> {
    match mention_body(word) {
        Some(body) => match user_id(body) {
            Some(id) => Some(TokenView::Mention(id)),
            None => None,
        },
        None => Some(TokenView::Name(word)),
    }
}

/// Whether `c` separates words.
pub fn separates(c: char) -> (space: bool)
    ensures
        space == is_space(c),
{
    let code: u32 = c as u32;
    (0x09 <= code && code <= 0x0D) || code == 0x20 || code == 0x85 || code == 0xA0 || code
        == 0x1680 || (0x2000 <= code && code <= 0x200A) || code == 0x2028 || code == 0x2029 || code
        == 0x202F || code == 0x205F || code == 0x3000
}

fn after_spaces(chars: &Vec<char>, from: usize) -> (at: usize)
    requires
        from <= chars.len(),
    ensures
        at == skip_spaces(chars@, from as int),
        from <= at <= chars.len(),
{
    let mut at: usize = from;
    while at < chars.len() && separates(chars[at])
        invariant
            from <= at <= chars.len(),
            skip_spaces(chars@, at as int) == skip_spaces(chars@, from as int),
        decreases chars.len() - at,
    {
        at = at + 1;
    }
    at
}

fn after_word(chars: &Vec<char>, from: usize) -> (at: usize)
    requires
        from <= chars.len(),
    ensures
        at == skip_word(chars@, from as int),
        from <= at <= chars.len(),
{
    let mut at: usize = from;
    while at < chars.len() && !separates(chars[at])
        invariant
            from <= at <= chars.len(),
            skip_word(chars@, at as int) == skip_word(chars@, from as int),
        decreases chars.len() - at,
    {
        at = at + 1;
    }
    at
}

fn spells(chars: &Vec<char>, from: usize, to: usize, word: &str) -> (same: bool)
    requires
        from <= to <= chars.len(),
    ensures
        same == (chars@.subrange(from as int, to as int) == word@),
{
    let letters: Vec<char> = chars_of(word);
    if letters.len() != to - from {
        return false;
    }
    let mut i: usize = 0;
    while i < letters.len()
        invariant
            i <= letters.len() == to - from,
            to <= chars.len(),
            letters@ == word@,
            forall|k: int| 0 <= k < i ==> chars@[from + k] == letters@[k],
        decreases letters.len() - i,
    {
        if chars[from + i] != letters[i] {
            assert(chars@.subrange(from as int, to as int)[i as int] != word@[i as int]);
            return false;
        }
        i = i + 1;
    }
    assert(chars@.subrange(from as int, to as int) =~= word@);
    true
}

/// Takes the command out of the text of a message.
pub fn parse_command(prefix: &str, content: &str) -> (command: Option<Command>)
    ensures
        match command {
            Some(found) => command_of(prefix@, content@) == Some((found.kind, found.target@)),
            None => command_of(prefix@, content@) is None,
        },
{
    let lead: Vec<char> = chars_of(prefix);
    let chars: Vec<char> = chars_of(content);
    if !spells_prefix(&chars, &lead) {
        return None;
    }
    let verb_start: usize = after_spaces(&chars, lead.len());
    let verb_end: usize = after_word(&chars, verb_start);
    let target_start: usize = after_spaces(&chars, verb_end);
    let target_end: usize = after_word(&chars, target_start);
    if target_start == target_end {
        return None;
    }
    let kind: Kind = if spells(&chars, verb_start, verb_end, "nominate") {
        Kind::Nominate
    } else if spells(&chars, verb_start, verb_end, "vote") {
        Kind::Vote
    } else {
        return None;
    };
    let target: String = content.substring_char(target_start, target_end).to_owned();
    Some(Command { kind, target })
}

fn spells_prefix(chars: &Vec<char>, lead: &Vec<char>) -> (same: bool)
    ensures
        same == lead@.is_prefix_of(chars@),
{
    if chars.len() < lead.len() {
        return false;
    }
    let mut i: usize = 0;
    while i < lead.len()
        invariant
            i <= lead.len() <= chars.len(),
            forall|k: int| 0 <= k < i ==> chars@[k] == lead@[k],
        decreases lead.len() - i,
    {
        if chars[i] != lead[i] {
            assert(chars@.subrange(0, lead.len() as int)[i as int] == chars@[i as int]);
            return false;
        }
        i = i + 1;
    }
    assert(lead@ =~= chars@.subrange(0, lead.len() as int));
    true
}

/// Reads an identity as `twilight_model` reads one: `Id::<UserMarker>::from_str`,
/// which hands the text to `NonZeroU64::from_str`. An optional `+` and then
/// numerals are accepted; zero, a number too large for 64 bits, an empty text
/// and any other character are not.
#[verifier::external_body]
fn parse_user_id(text: &str) -> (id: Option<u64>)
    ensures
        id == user_id(text@),
{
    match text.parse::<Id<UserMarker>>() {
        Ok(id) => Some(id.get()),
        Err(_) => None,
    }
}

impl Token {
    /// The target that `word` names, if it names one.
    pub fn parse(word: &str) -> (token: Option<Token>)
        ensures
            match token {
                Some(found) => token_of(word@) == Some(found@),
                None => token_of(word@) is None,
            },
    {
        let len: usize = word.unicode_len();
        if len >= 3 && word.get_char(0) == '<' && word.get_char(1) == '@' && word.get_char(len - 1)
            == '>' {
            match parse_user_id(word.substring_char(2, len - 1)) {
                Some(id) => Some(Token::Mention(id)),
                None => None,
            }
        } else {
            Some(Token::Name(word.to_owned()))
        }
    }
}

/// Where the words of a text lie: `skip_spaces` stops at the first character
/// that is no separator and has passed over separators only; `skip_word`
/// stops at the first separator and has passed over none.
pub proof fn lemma_word_bounds(text: Seq<char>, from: int)
    requires
        0 <= from <= text.len(),
    ensures
        from <= skip_spaces(text, from) <= text.len(),
        forall|i: int| from <= i < skip_spaces(text, from) ==> is_space(#[trigger] text[i]),
        skip_spaces(text, from) < text.len() ==> !is_space(text[skip_spaces(text, from)]),
        from <= skip_word(text, from) <= text.len(),
        forall|i: int| from <= i < skip_word(text, from) ==> !is_space(#[trigger] text[i]),
        skip_word(text, from) < text.len() ==> is_space(text[skip_word(text, from)]),
    decreases text.len() - from,
{
    if from < text.len() {
        lemma_word_bounds(text, from + 1);
    }
}

} // verus!
