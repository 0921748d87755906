//! The requests and answers of the store as they go over the wire.

use vstd::prelude::*;
use vstd::string::*;
use crate::decimal::{decimal, push_decimal};
use crate::keys::{nominee_pattern, nominee_prefix, texts_of};
use crate::store::{ReplyView, StoreOp, StoreReply};

verus! {

/// An answer of the shared store before it is read as the answer to a
/// request.
#[derive(Clone, Debug, PartialEq, Eq)]
pub enum Raw {
    /// No value.
    Nil,
    /// The word of assent.
    Okay,
    Int(i64),
    Text(String),
    List(Vec<String>),
    /// Anything else.
    Other,
}

/// A raw answer as contracts see it.
pub ghost enum RawView {
    Nil,
    Okay,
    Int(i64),
    Text(Seq<char>),
    List(Seq<Seq<char>>),
    Other,
}

impl View for Raw {
    type V = RawView;

    open spec fn view(&self) -> RawView {
        match *self {
            Raw::Nil => RawView::Nil,
            Raw::Okay => RawView::Okay,
            Raw::Int(n) => RawView::Int(n),
            Raw::Text(text) => RawView::Text(text@),
            Raw::List(items) => RawView::List(texts_of(items@)),
            Raw::Other => RawView::Other,
        }
    }
}

/// The words of the command that asks the shared store for `op`.
pub open spec fn words_of(op: StoreOp) -> Seq<Seq<char>> {
    match op {
        StoreOp::Add { key, member } => seq!["SADD"@, key.text(), decimal(member as nat)],
        StoreOp::Claim { key, value } => seq!["SET"@, key.text(), decimal(value as nat), "NX"@],
        StoreOp::Increment { key } => seq!["INCR"@, key.text()],
        StoreOp::Read { key } => seq!["GET"@, key.text()],
        StoreOp::Nominees { cycle } => seq!["KEYS"@, nominee_prefix(cycle) + "*"@],
    }
}

/// What a raw answer says in answer to `op`. An answer of another shape than
/// the request calls for says that the store failed.
pub open spec fn reply_of(op: StoreOp, raw: RawView) -> ReplyView {
    match (op, raw) {
        (StoreOp::Add { key, member }, RawView::Int(n)) => if n == 1 {
            ReplyView::Flag(true)
        } else if n == 0 {
            ReplyView::Flag(false)
        } else {
            ReplyView::Failed
        },
        (StoreOp::Claim { key, value }, RawView::Okay) => ReplyView::Flag(true),
        (StoreOp::Claim { key, value }, RawView::Nil) => ReplyView::Flag(false),
        (StoreOp::Increment { key }, RawView::Int(n)) => if n >= 1 {
            ReplyView::Count(n as u64)
        } else {
            ReplyView::Failed
        },
        (StoreOp::Read { key }, RawView::Nil) => ReplyView::Text(None),
        (StoreOp::Read { key }, RawView::Text(text)) => ReplyView::Text(Some(text)),
        (StoreOp::Nominees { cycle }, RawView::List(keys)) => ReplyView::Keys(keys),
        _ => ReplyView::Failed,
    }
}

fn numeral(n: u64) -> (text: String)
    ensures
        text@ == decimal(n as nat),
{
    let mut text: String = String::new();
    push_decimal(&mut text, n);
    assert(text@ =~= decimal(n as nat));
    text
}

/// Writes the command that asks the shared store for `op`, word by word.
pub fn command(op: StoreOp) -> (words: Vec<String>)
    ensures
        texts_of(words@) == words_of(op),
{
    let mut words: Vec<String> = Vec::new();
    match op {
        StoreOp::Add { key, member } => {
            words.push(String::from_str("SADD"));
            words.push(key.render());
            words.push(numeral(member));
        },
        StoreOp::Claim { key, value } => {
            words.push(String::from_str("SET"));
            words.push(key.render());
            words.push(numeral(value));
            words.push(String::from_str("NX"));
        },
        StoreOp::Increment { key } => {
            words.push(String::from_str("INCR"));
            words.push(key.render());
        },
        StoreOp::Read { key } => {
            words.push(String::from_str("GET"));
            words.push(key.render());
        },
        StoreOp::Nominees { cycle } => {
            words.push(String::from_str("KEYS"));
            words.push(nominee_pattern(cycle));
        },
    }
    assert(texts_of(words@) =~= words_of(op));
    words
}

/// Reads a raw answer as the answer to `op`.
pub fn interpret(op: StoreOp, raw: Raw) -> (reply: StoreReply)
    ensures
        reply@ == reply_of(op, raw@),
{
    match op {
        StoreOp::Add { key, member } => match raw {
            Raw::Int(n) => {
                if n == 1 {
                    StoreReply::Flag(true)
                } else if n == 0 {
                    StoreReply::Flag(false)
                } else {
                    StoreReply::Failed
                }
            },
            _ => StoreReply::Failed,
        },
        StoreOp::Claim { key, value } => match raw {
            Raw::Okay => StoreReply::Flag(true),
            Raw::Nil => StoreReply::Flag(false),
            _ => StoreReply::Failed,
        },
        StoreOp::Increment { key } => match raw {
            Raw::Int(n) => {
                if n >= 1 {
                    StoreReply::Count(n as u64)
                } else {
                    StoreReply::Failed
                }
            },
            _ => StoreReply::Failed,
        },
        StoreOp::Read { key } => match raw {
            Raw::Nil => StoreReply::Text(None),
            Raw::Text(text) => StoreReply::Text(Some(text)),
            _ => StoreReply::Failed,
        },
        StoreOp::Nominees { cycle } => match raw {
            Raw::List(keys) => StoreReply::Keys(keys),
            _ => StoreReply::Failed,
        },
    }
}

} // verus!
