//! The text feed of the status bar: what the window manager says about workspaces and
//! window titles, and where on the screen the bar goes.
//!
//! A message of the feed is a run of fields, separated by `|` within a line and by line
//! breaks between lines. A field reads `key:value`; the first colon ends the key. Only the
//! keys `workspace` and `title` mean something to the bar; every other field is skipped.

use vstd::prelude::*;
use vstd::string::*;

verus! {

/// The screen edge the bar is fixed to.
#[derive(Clone, Copy, Debug, PartialEq, Eq, Structural)]
pub enum BarEdge {
    Top,
    Bottom,
}

/// The edge for a configured position: the bottom if the position reads `bottom`, the top
/// for everything else and where nothing is configured.
pub open spec fn edge_of(position: Option<Seq<char>>) -> BarEdge {
    match position {
        Some(text) => if text == "bottom"@ {
            BarEdge::Bottom
        } else {
            BarEdge::Top
        },
        None => BarEdge::Top,
    }
}

/// The edge the bar is fixed to, given the position from the configuration, if it has one.
pub fn bar_edge(position: Option<&str>) -> (edge: BarEdge)
    ensures
        edge == edge_of(
            match position {
                Some(text) => Some(text@),
                None => None,
            },
        ),
{
    match position {
        Some(text) => {
            if text.to_owned() == "bottom".to_owned() {
                BarEdge::Bottom
            } else {
                BarEdge::Top
            }
        },
        None => BarEdge::Top,
    }
}

/// What a field of the feed is about.
#[derive(Clone, Copy, Debug, PartialEq, Eq, Structural)]
pub enum FeedKey {
    /// The field names the current workspace.
    Workspace,
    /// The field holds the title of the focused window.
    Title,
}

/// One update found in a message: its key, and where in the message its value stands, from
/// byte `start` up to but not including byte `end`.
#[derive(Clone, Copy, Debug, PartialEq, Eq, Structural)]
pub struct FeedUpdate {
    pub key: FeedKey,
    pub start: usize,
    pub end: usize,
}

/// The line feed.
pub const LINE_FEED: u8 = 10;

/// The carriage return.
pub const CARRIAGE_RETURN: u8 = 13;

/// The bar that separates fields within a line.
pub const BAR: u8 = 124;

/// The colon that ends a key.
pub const COLON: u8 = 58;

/// Whether a byte ends a field.
pub open spec fn separates(byte: u8) -> bool {
    byte == LINE_FEED || byte == BAR
}

/// The first index from `from` on at which `message` holds a separator, or the length of
/// the message if there is none: the end of the field that starts at `from`.
pub open spec fn field_end(message: Seq<u8>, from: int) -> int
    decreases message.len() - from,
{
    if from >= message.len() {
        message.len() as int
    } else if separates(message[from]) {
        from
    } else {
        field_end(message, from + 1)
    }
}

/// The first index in `from .. end` at which `message` holds a colon, or `end` if there is
/// none.
pub open spec fn key_end(message: Seq<u8>, from: int, end: int) -> int
    decreases end - from,
{
    if from >= end {
        end
    } else if message[from] == COLON {
        from
    } else {
        key_end(message, from + 1, end)
    }
}

/// The end of a field's text: the field's end, or one before it where the field ends a
/// line with a carriage return before the line feed.
pub open spec fn text_end(message: Seq<u8>, from: int, end: int) -> int {
    if from < end < message.len() && message[end] == LINE_FEED && message[end - 1]
        == CARRIAGE_RETURN {
        end - 1
    } else {
        end
    }
}

/// What the key in `from .. to` of `message` stands for, if it is one the bar knows.
pub open spec fn key_of(message: Seq<u8>, from: int, to: int) -> Option<FeedKey> {
    if message.subrange(from, to) == "workspace".spec_bytes() {
        Some(FeedKey::Workspace)
    } else if message.subrange(from, to) == "title".spec_bytes() {
        Some(FeedKey::Title)
    } else {
        None
    }
}

/// The update that the field with the text `from .. end` of `message` holds, if it holds
/// one: the field must have a colon and a known key before it; the value is what follows
/// the colon.
pub open spec fn update_in(message: Seq<u8>, from: int, end: int) -> Option<FeedUpdate> {
    let colon = key_end(message, from, end);
    if colon < end {
        match key_of(message, from, colon) {
            Some(key) => Some(FeedUpdate { key, start: (colon + 1) as usize, end: end as usize }),
            None => None,
        }
    } else {
        None
    }
}

/// The updates in `message` from byte `from` on, field by field.
pub open spec fn updates_from(message: Seq<u8>, from: int) -> Seq<FeedUpdate>
    decreases message.len() - from,
{
    if from < 0 || from > message.len() {
        Seq::<FeedUpdate>::empty()
    } else {
        let end = field_end(message, from);
        let here = match update_in(message, from, text_end(message, from, end)) {
            Some(update) => seq![update],
            None => Seq::<FeedUpdate>::empty(),
        };
        if end < message.len() {
            proof {
                lemma_field_end(message, from);
            }
            here + updates_from(message, end + 1)
        } else {
            here
        }
    }
}

/// All the updates in `message`, in the order in which they stand.
pub open spec fn updates_in(message: Seq<u8>) -> Seq<FeedUpdate> {
    updates_from(message, 0)
}

/// The end of a field is at or after its start, inside the message, and no byte of the
/// field is a separator.
pub proof fn lemma_field_end(message: Seq<u8>, from: int)
    requires
        0 <= from <= message.len(),
    ensures
        from <= field_end(message, from) <= message.len(),
        field_end(message, from) < message.len() ==> separates(
            message[field_end(message, from)],
        ),
        forall|i: int| from <= i < field_end(message, from) ==> !separates(#[trigger] message[i]),
    decreases message.len() - from,
{
    if from < message.len() && !separates(message[from]) {
        lemma_field_end(message, from + 1);
    }
}

/// The end of a key is between the field's start and its end, and no byte of the key is a
/// colon.
pub proof fn lemma_key_end(message: Seq<u8>, from: int, end: int)
    requires
        0 <= from <= end <= message.len(),
    ensures
        from <= key_end(message, from, end) <= end,
        key_end(message, from, end) < end ==> message[key_end(message, from, end)] == COLON,
    decreases end - from,
{
    if from < end && message[from] != COLON {
        lemma_key_end(message, from + 1, end);
    }
}

/// Every update lies inside the message, with its value inside its field.
pub proof fn lemma_updates_lie_inside(message: Seq<u8>, from: int)
    requires
        0 <= from <= message.len() <= usize::MAX,
    ensures
        forall|k: int|
            0 <= k < updates_from(message, from).len() ==> {
                let update = #[trigger] updates_from(message, from)[k];
                &&& from < update.start <= update.end <= message.len()
                &&& forall|i: int| update.start <= i < update.end ==> !separates(message[i])
            },
    decreases message.len() - from,
{
    let end = field_end(message, from);
    lemma_field_end(message, from);
    let stop = text_end(message, from, end);
    lemma_key_end(message, from, stop);
    let here = match update_in(message, from, stop) {
        Some(update) => seq![update],
        None => Seq::<FeedUpdate>::empty(),
    };
    let all = updates_from(message, from);
    if end < message.len() {
        lemma_updates_lie_inside(message, end + 1);
    }
    let rest = if end < message.len() {
        updates_from(message, end + 1)
    } else {
        Seq::<FeedUpdate>::empty()
    };
    assert(all =~= here + rest);
    assert forall|k: int| 0 <= k < all.len() implies {
        let update = #[trigger] all[k];
        &&& from < update.start <= update.end <= message.len()
        &&& forall|i: int| update.start <= i < update.end ==> !separates(message[i])
    } by {
        if k >= here.len() {
            assert(all[k] == rest[k - here.len()]);
        } else {
            assert(all[k] == here[k]);
        }
    }
}

/// Whether the bytes `from .. to` of `message` spell `word`.
fn spells(message: &[u8], from: usize, to: usize, word: &str) -> (same: bool)
    requires
        from <= to <= message@.len(),
    ensures
        same == (message@.subrange(from as int, to as int) == word.spec_bytes()),
{
    let letters = word.as_bytes();
    if letters.len() != to - from {
        return false;
    }
    let mut i: usize = 0;
    while i < letters.len()
        invariant
            i <= letters.len(),
            letters.len() == to - from,
            from <= to <= message@.len(),
            letters@ == word.spec_bytes(),
            forall|j: int| 0 <= j < i ==> message@[from + j] == letters@[j],
        decreases letters.len() - i,
    {
        if message[from + i] != letters[i] {
            assert(message@.subrange(from as int, to as int)[i as int] != letters@[i as int]);
            return false;
        }
        i += 1;
    }
    assert(message@.subrange(from as int, to as int) =~= letters@);
    true
}

/// Finds the updates in one message of the feed, in the order in which they stand.
///
/// Fields without a colon, and fields whose key is neither `workspace` nor `title`, are
/// skipped. A value runs from behind the first colon of its field to the end of the field
/// and may hold further colons; a carriage return before a line feed is not part of it.
pub fn parse_feed(message: &[u8]) -> (updates: Vec<FeedUpdate>)
    ensures
        updates@ == updates_in(message@),
{
    let mut updates: Vec<FeedUpdate> = Vec::new();
    let total: usize = message.len();
    let mut from: usize = 0;
    loop
        invariant_except_break
            updates@ + updates_from(message@, from as int) == updates_in(message@),
        invariant
            from <= total,
            total == message@.len(),
        ensures
            updates@ == updates_in(message@),
        decreases total - from,
    {
        let mut end: usize = from;
        while end < total && message[end] != LINE_FEED && message[end] != BAR
            invariant
                from <= end <= total,
                total == message@.len(),
                field_end(message@, end as int) == field_end(message@, from as int),
            decreases total - end,
        {
            end += 1;
        }
        let stop: usize = if from < end && end < total && message[end] == LINE_FEED && message[end
            - 1] == CARRIAGE_RETURN {
            end - 1
        } else {
            end
        };
        let mut colon: usize = from;
        while colon < stop && message[colon] != COLON
            invariant
                from <= colon <= stop <= total,
                total == message@.len(),
                key_end(message@, colon as int, stop as int) == key_end(
                    message@,
                    from as int,
                    stop as int,
                ),
            decreases stop - colon,
        {
            colon += 1;
        }
        let ghost before = updates@;
        if colon < stop {
            if spells(message, from, colon, "workspace") {
                updates.push(FeedUpdate { key: FeedKey::Workspace, start: colon + 1, end: stop });
            } else if spells(message, from, colon, "title") {
                updates.push(FeedUpdate { key: FeedKey::Title, start: colon + 1, end: stop });
            }
        }
        proof {
            let here = match update_in(message@, from as int, stop as int) {
                Some(update) => seq![update],
                None => Seq::<FeedUpdate>::empty(),
            };
            assert(updates@ =~= before + here);
            if end < total {
                assert(updates@ + updates_from(message@, end + 1) =~= before + (here
                    + updates_from(message@, end + 1)));
            } else {
                assert(updates@ =~= before + here);
            }
        }
        if end >= total {
            break ;
        }
        from = end + 1;
    }
    updates
}

/// The bytes of an update's value, copied out of the message it was found in. An update
/// that does not lie inside the message has the empty value.
pub fn value_of(message: &[u8], update: &FeedUpdate) -> (value: Vec<u8>)
    ensures
        value@ == if update.start <= update.end <= message@.len() {
            message@.subrange(update.start as int, update.end as int)
        } else {
            Seq::<u8>::empty()
        },
{
    let mut value: Vec<u8> = Vec::new();
    if update.start <= update.end && update.end <= message.len() {
        let mut i: usize = update.start;
        while i < update.end
            invariant
                update.start <= i <= update.end <= message@.len(),
                value@ == message@.subrange(update.start as int, i as int),
            decreases update.end - i,
        {
            value.push(message[i]);
            assert(value@ =~= message@.subrange(update.start as int, i + 1));
            i += 1;
        }
    }
    value
}

} // verus!
