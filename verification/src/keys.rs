//! The key namespace of the shared store.
//!
//! Every record of an election is kept under a key that names the cycle, so
//! the records of a cycle that has passed are never read again.

use vstd::prelude::*;
use vstd::string::*;
use crate::decimal::{
    chars_of, decimal, lemma_decimal_is_injective, lemma_decimal_reads_back,
    lemma_number_iff_decimal, number, push_decimal, read_number,
};

verus! {

/// A key of the shared store.
#[derive(Clone, Copy, Debug, PartialEq, Eq, Structural)]
pub enum Key {
    /// `nominee:{cycle}:{nominee}`: the set of those who nominated `nominee`.
    Nominee { cycle: u64, nominee: u64 },
    /// `since:{cycle}:{nominee}`: the instant `nominee` was first nominated at.
    Since { cycle: u64, nominee: u64 },
    /// `nominated:{cycle}:{actor}`: present once `actor` has nominated.
    Nominated { cycle: u64, actor: u64 },
    /// `voted:{cycle}:{actor}`: present once `actor` has voted.
    Voted { cycle: u64, actor: u64 },
    /// `tally:{cycle}:{nominee}`: the number of votes for `nominee`.
    Tally { cycle: u64, nominee: u64 },
    /// `finalized:{cycle}`: present once the winner of `cycle` was determined.
    Finalized { cycle: u64 },
}

/// What every key of a nomination set of `cycle` begins with.
pub open spec fn nominee_prefix(cycle: u64) -> Seq<char> {
    "nominee:"@ + decimal(cycle as nat) + ":"@
}

/// The nominee that `text` is the nomination-set key of in `cycle`, if it is
/// such a key.
pub open spec fn nominee_of_text(cycle: u64, text: Seq<char>) -> Option<u64> {
    let prefix = nominee_prefix(cycle);
    if prefix.is_prefix_of(text) {
        number(text.skip(prefix.len() as int))
    } else {
        None
    }
}

/// The texts of `keys`, in order.
pub open spec fn texts_of(keys: Seq<String>) -> Seq<Seq<char>> {
    Seq::new(keys.len(), |i: int| keys[i]@)
}

/// The nominees whose nomination-set keys are among `keys`, in the order of
/// the keys; texts that are no such key of `cycle` are passed over.
pub open spec fn nominees_in(cycle: u64, keys: Seq<Seq<char>>) -> Seq<u64>
    decreases keys.len(),
{
    if keys.len() == 0 {
        Seq::empty()
    } else {
        let before = nominees_in(cycle, keys.drop_last());
        match nominee_of_text(cycle, keys.last()) {
            Some(nominee) => before.push(nominee),
            None => before,
        }
    }
}

impl Key {
    /// The text of the key as the store sees it.
    pub open spec fn text(self) -> Seq<char> {
        match self {
            Key::Nominee { cycle, nominee } => nominee_prefix(cycle) + decimal(nominee as nat),
            Key::Since { cycle, nominee } => "since:"@ + decimal(cycle as nat) + ":"@ + decimal(
                nominee as nat,
            ),
            Key::Nominated { cycle, actor } => "nominated:"@ + decimal(cycle as nat) + ":"@
                + decimal(actor as nat),
            Key::Voted { cycle, actor } => "voted:"@ + decimal(cycle as nat) + ":"@ + decimal(
                actor as nat,
            ),
            Key::Tally { cycle, nominee } => "tally:"@ + decimal(cycle as nat) + ":"@ + decimal(
                nominee as nat,
            ),
            Key::Finalized { cycle } => "finalized:"@ + decimal(cycle as nat),
        }
    }

    /// Writes the key as the store sees it.
    pub fn render(&self) -> (text: String)
        ensures
            text@ == self.text(),
    {
        match *self {
            Key::Nominee { cycle, nominee } => scoped("nominee:", cycle, nominee),
            Key::Since { cycle, nominee } => scoped("since:", cycle, nominee),
            Key::Nominated { cycle, actor } => scoped("nominated:", cycle, actor),
            Key::Voted { cycle, actor } => scoped("voted:", cycle, actor),
            Key::Tally { cycle, nominee } => scoped("tally:", cycle, nominee),
            Key::Finalized { cycle } => {
                let mut text: String = String::from_str("finalized:");
                push_decimal(&mut text, cycle);
                text
            },
        }
    }
}

fn scoped(family: &str, cycle: u64, subject: u64) -> (text: String)
    ensures
        text@ == family@ + decimal(cycle as nat) + ":"@ + decimal(subject as nat),
{
    let mut text: String = String::from_str(family);
    push_decimal(&mut text, cycle);
    text.append(":");
    push_decimal(&mut text, subject);
    text
}

/// The pattern that matches the nomination-set keys of `cycle` and no other
/// key of the namespace: the common prefix followed by `*`.
pub fn nominee_pattern(cycle: u64) -> (pattern: String)
    ensures
        pattern@ == nominee_prefix(cycle) + "*"@,
{
    let mut pattern: String = String::from_str("nominee:");
    push_decimal(&mut pattern, cycle);
    pattern.append(":");
    pattern.append("*");
    pattern
}

/// Reads `key` as a nomination-set key of `cycle`.
pub fn nominee_of_key(cycle: u64, key: &str) -> (nominee: Option<u64>)
    ensures
        nominee == nominee_of_text(cycle, key@),
{
    let mut prefix: String = String::from_str("nominee:");
    push_decimal(&mut prefix, cycle);
    prefix.append(":");
    let lead: Vec<char> = chars_of(prefix.as_str());
    let chars: Vec<char> = chars_of(key);
    if chars.len() < lead.len() {
        return None;
    }
    let mut i: usize = 0;
    while i < lead.len()
        invariant
            i <= lead.len() <= chars.len(),
            lead@ == nominee_prefix(cycle),
            chars@ == key@,
            forall|k: int| 0 <= k < i ==> chars@[k] == lead@[k],
        decreases lead.len() - i,
    {
        if chars[i] != lead[i] {
            assert(chars@.subrange(0, lead.len() as int)[i as int] == chars@[i as int]);
            return None;
        }
        i = i + 1;
    }
    assert(lead@ =~= chars@.subrange(0, lead.len() as int));
    assert(chars@.skip(lead.len() as int) =~= chars@.subrange(
        lead.len() as int,
        chars.len() as int,
    ));
    read_number(&chars, lead.len(), chars.len())
}

/// The nominees named by the nomination-set keys among `keys`.
pub fn nominees_of_keys(cycle: u64, keys: &Vec<String>) -> (nominees: Vec<u64>)
    ensures
        nominees@ == nominees_in(cycle, texts_of(keys@)),
{
    let ghost texts = texts_of(keys@);
    let mut nominees: Vec<u64> = Vec::new();
    let mut i: usize = 0;
    assert(texts.take(0) =~= Seq::<Seq<char>>::empty());
    while i < keys.len()
        invariant
            i <= keys.len(),
            texts == texts_of(keys@),
            nominees@ == nominees_in(cycle, texts.take(i as int)),
        decreases keys.len() - i,
    {
        assert(texts.take(i + 1).drop_last() =~= texts.take(i as int));
        assert(texts.take(i + 1).last() == keys@[i as int]@);
        match nominee_of_key(cycle, keys[i].as_str()) {
            Some(nominee) => nominees.push(nominee),
            None => {},
        }
        i = i + 1;
    }
    assert(texts.take(keys.len() as int) =~= texts);
    nominees
}

/// The family a key belongs to and the two numbers in it; a key of a cycle as
/// a whole has the cycle for both.
pub open spec fn parts(key: Key) -> (Seq<char>, u64, u64) {
    match key {
        Key::Nominee { cycle, nominee } => ("nominee:"@, cycle, nominee),
        Key::Since { cycle, nominee } => ("since:"@, cycle, nominee),
        Key::Nominated { cycle, actor } => ("nominated:"@, cycle, actor),
        Key::Voted { cycle, actor } => ("voted:"@, cycle, actor),
        Key::Tally { cycle, nominee } => ("tally:"@, cycle, nominee),
        Key::Finalized { cycle } => ("finalized:"@, cycle, cycle),
    }
}

/// The first and the sixth character of the text of a key, which tell the
/// families apart.
pub open spec fn marks(key: Key) -> (char, char) {
    match key {
        Key::Nominee { .. } => ('n', 'e'),
        Key::Since { .. } => ('s', ':'),
        Key::Nominated { .. } => ('n', 'a'),
        Key::Voted { .. } => ('v', ':'),
        Key::Tally { .. } => ('t', ':'),
        Key::Finalized { .. } => ('f', 'i'),
    }
}

/// What follows the family in the text of a key.
pub open spec fn tail(key: Key) -> Seq<char> {
    if key is Finalized {
        decimal(parts(key).1 as nat)
    } else {
        decimal(parts(key).1 as nat) + ":"@ + decimal(parts(key).2 as nat)
    }
}

/// The text of a key is its family followed by its tail, and it carries the
/// marks of its family.
proof fn lemma_key_text_shape(key: Key)
    ensures
        key.text() == parts(key).0 + tail(key),
        parts(key).0.len() >= 6,
        key.text()[0] == marks(key).0,
        key.text()[5] == marks(key).1,
{
    reveal_strlit("nominee:");
    reveal_strlit("since:");
    reveal_strlit("nominated:");
    reveal_strlit("voted:");
    reveal_strlit("tally:");
    reveal_strlit("finalized:");
    let family = parts(key).0;
    assert(key.text() =~= family + tail(key));
    assert((family + tail(key))[0] == family[0]);
    assert((family + tail(key))[5] == family[5]);
}

/// Two numbers written one after the other with `:` between them can be told
/// apart again.
proof fn lemma_pair_is_read_back(a: nat, b: nat, c: nat, d: nat)
    requires
        decimal(a) + ":"@ + decimal(b) == decimal(c) + ":"@ + decimal(d),
    ensures
        a == c,
        b == d,
{
    reveal_strlit(":");
    lemma_decimal_reads_back(a);
    lemma_decimal_reads_back(b);
    lemma_decimal_reads_back(c);
    lemma_decimal_reads_back(d);
    let left = decimal(a) + ":"@ + decimal(b);
    let right = decimal(c) + ":"@ + decimal(d);
    let la = decimal(a).len() as int;
    let lc = decimal(c).len() as int;
    assert(left[la] == ':');
    assert(right[lc] == ':');
    if la < lc {
        assert(right[la] == decimal(c)[la]);
    }
    if lc < la {
        assert(left[lc] == decimal(a)[lc]);
    }
    assert(decimal(a) =~= left.subrange(0, la));
    assert(decimal(c) =~= right.subrange(0, lc));
    assert(decimal(b) =~= left.subrange(la + 1, left.len() as int));
    assert(decimal(d) =~= right.subrange(lc + 1, right.len() as int));
}

/// No two keys have the same text.
pub proof fn lemma_key_texts_differ(a: Key, b: Key)
    requires
        a.text() == b.text(),
    ensures
        a == b,
{
    lemma_key_text_shape(a);
    lemma_key_text_shape(b);
    assert(marks(a) == marks(b));
    let family = parts(a).0;
    assert(parts(b).0 == family);
    let from = family.len() as int;
    assert(tail(a) =~= a.text().subrange(from, a.text().len() as int));
    assert(tail(b) =~= b.text().subrange(from, b.text().len() as int));
    if a is Finalized {
        lemma_decimal_is_injective(parts(a).1 as nat, parts(b).1 as nat);
    } else {
        lemma_pair_is_read_back(
            parts(a).1 as nat,
            parts(a).2 as nat,
            parts(b).1 as nat,
            parts(b).2 as nat,
        );
    }
}

/// A text is read as the nomination-set key of `nominee` exactly when it is
/// the text of that key.
pub proof fn lemma_nominee_key_round_trip(cycle: u64, nominee: u64, text: Seq<char>)
    ensures
        nominee_of_text(cycle, text) == Some(nominee) <==> text == (Key::Nominee {
            cycle,
            nominee,
        }).text(),
{
    let prefix = nominee_prefix(cycle);
    let rest = text.skip(prefix.len() as int);
    lemma_number_iff_decimal(rest, nominee);
    if nominee_of_text(cycle, text) == Some(nominee) {
        assert(text =~= prefix + rest);
    }
    if text == prefix + decimal(nominee as nat) {
        assert(rest =~= decimal(nominee as nat));
        assert(prefix =~= text.subrange(0, prefix.len() as int));
    }
}

/// A nominee is among those read from `keys` exactly when its nomination-set
/// key is among the keys.
pub proof fn lemma_nominees_in_keys(cycle: u64, keys: Seq<Seq<char>>, nominee: u64)
    ensures
        nominees_in(cycle, keys).contains(nominee) <==> exists|i: int|
            0 <= i < keys.len() && #[trigger] keys[i] == (Key::Nominee { cycle, nominee }).text(),
    decreases keys.len(),
{
    let wanted = (Key::Nominee { cycle, nominee }).text();
    if keys.len() > 0 {
        let before = keys.drop_last();
        lemma_nominees_in_keys(cycle, before, nominee);
        lemma_nominee_key_round_trip(cycle, nominee, keys.last());
        let found = nominees_in(cycle, keys);
        let found_before = nominees_in(cycle, before);
        if found.contains(nominee) {
            let at = choose|j: int| 0 <= j < found.len() && found[j] == nominee;
            if at < found_before.len() {
                assert(found_before[at] == nominee);
                let i = choose|i: int| 0 <= i < before.len() && #[trigger] before[i] == wanted;
                assert(keys[i] == before[i]);
            } else {
                assert(keys[keys.len() - 1] == wanted);
            }
        }
        if exists|i: int| 0 <= i < keys.len() && #[trigger] keys[i] == wanted {
            let i = choose|i: int| 0 <= i < keys.len() && #[trigger] keys[i] == wanted;
            if i < before.len() {
                assert(before[i] == keys[i]);
                let at = choose|j: int| 0 <= j < found_before.len() && found_before[j] == nominee;
                assert(found[at] == nominee);
            } else {
                assert(found[found.len() - 1] == nominee);
            }
        }
    }
}

} // verus!
