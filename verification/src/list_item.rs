//! One entry of the list: its identity, its text, its completion status and
//! the ordered identifiers of its children.

use crate::text::{copy_ids, ids_of, push_char};
use rand::Rng;
use vstd::prelude::*;

verus! {

/// Completion status of an item.
#[derive(Clone, Copy, Debug, PartialEq, Eq, Structural)]
pub enum State {
    Pending,
    Completed,
    Blocked,
}

impl State {
    /// The status of an item whose stored form carries none.
    pub fn default() -> (state: State)
        ensures
            state == State::Pending,
    {
        State::Pending
    }

    /// The status after the completion toggle: a completed item becomes
    /// pending again, any other item becomes completed.
    pub open spec fn toggled(self) -> State {
        if self == State::Completed {
            State::Pending
        } else {
            State::Completed
        }
    }

    /// Flips the completion status.
    pub fn toggle(self) -> (state: State)
        ensures
            state == self.toggled(),
    {
        match self {
            State::Completed => State::Pending,
            State::Pending => State::Completed,
            State::Blocked => State::Completed,
        }
    }
}

/// What an item is, as mathematics: text as sequences of characters and the
/// children as a sequence of identifiers.
pub struct ItemView {
    pub id: Seq<char>,
    pub value: Seq<char>,
    pub children: Seq<Seq<char>>,
    pub state: State,
}

/// A pending item without children with the given identifier and text.
pub open spec fn pending(id: Seq<char>, value: Seq<char>) -> ItemView {
    ItemView { id, value, children: Seq::empty(), state: State::Pending }
}

/// A single list entry.
#[derive(Clone, Debug)]
pub struct ListItem {
    pub id: String,
    pub value: String,
    pub(crate) children: Vec<String>,
    pub state: State,
}

impl View for ListItem {
    type V = ItemView;

    closed spec fn view(&self) -> ItemView {
        ItemView {
            id: self.id@,
            value: self.value@,
            children: ids_of(self.children@),
            state: self.state,
        }
    }
}

impl ListItem {
    /// Inside the crate, the view of an item is read off its fields.
    pub(crate) broadcast proof fn view_of_fields(&self)
        ensures
            #[trigger] self@ == (ItemView {
                id: self.id@,
                value: self.value@,
                children: ids_of(self.children@),
                state: self.state,
            }),
    {
    }
}

/// Number of characters of a generated identifier.
pub const ID_LENGTH: usize = 32;

/// The characters a generated identifier is drawn from.
pub open spec fn id_alphabet() -> Seq<char> {
    "abcdefghijklmnopqrstuvwxyz0123456789"@
}

/// Whether `s` is made of characters of the identifier alphabet only.
pub open spec fn over_id_alphabet(s: Seq<char>) -> bool {
    forall|i: int| 0 <= i < s.len() ==> id_alphabet().contains(#[trigger] s[i])
}

/// Whether `id` is such as is drawn for a new item: of the length of a
/// generated identifier and over the identifier alphabet.
pub open spec fn drawn(id: Seq<char>) -> bool {
    id.len() == ID_LENGTH && over_id_alphabet(id)
}

/// Draws an index below `bound` from the thread-local generator of `rand`
/// (`rand::rng().random_range(0..bound)`). The range must not be empty; the
/// value drawn lies in it, and nothing else is known of it. The generator is
/// seeded from the operating system when a thread first uses it; where the
/// system has no randomness to give, that fails, whatever the bound.
#[verifier::external_body]
fn random_below(bound: usize) -> (drawn: usize)
    requires
        bound > 0,
    ensures
        drawn < bound,
{
    rand::rng().random_range(0..bound)
}

impl ListItem {
    /// A pending item without children under a freshly drawn identifier.
    pub fn new(value: String) -> (item: ListItem)
        ensures
            drawn(item@.id),
            item@ == pending(item@.id, value@),
    {
        let id = Self::random_string_from_chars(ID_LENGTH);
        Self::with_id(id, value)
    }

    /// A pending item without children under the given identifier.
    pub fn with_id(id: String, value: String) -> (item: ListItem)
        ensures
            item@ == pending(id@, value@),
    {
        let item = ListItem { id, value, children: Vec::new(), state: State::Pending };
        assert(item@.children =~= Seq::<Seq<char>>::empty());
        item
    }

    /// An item put together from all four of its parts, as they were read
    /// from a stored list.
    pub fn from_parts(id: String, value: String, children: Vec<String>, state: State) -> (item:
        ListItem)
        ensures
            item@ == (ItemView {
                id: id@,
                value: value@,
                children: ids_of(children@),
                state,
            }),
    {
        ListItem { id, value, children, state }
    }

    /// The identifiers of the children, in order.
    pub fn child_ids(&self) -> (ids: Vec<String>)
        ensures
            ids_of(ids@) == self@.children,
    {
        copy_ids(&self.children)
    }

    /// A copy of the item.
    pub fn duplicate(&self) -> (copy: ListItem)
        ensures
            copy@ == self@,
    {
        ListItem {
            id: self.id.clone(),
            value: self.value.clone(),
            children: copy_ids(&self.children),
            state: self.state,
        }
    }

    /// A string of `length` characters, each drawn from the identifier
    /// alphabet.
    pub fn random_string_from_chars(length: usize) -> (s: String)
        ensures
            s@.len() == length,
            over_id_alphabet(s@),
    {
        let charset = "abcdefghijklmnopqrstuvwxyz0123456789";
        proof {
            reveal_strlit("abcdefghijklmnopqrstuvwxyz0123456789");
        }
        let mut s = String::new();
        let mut i: usize = 0;
        while i < length
            invariant
                i <= length,
                s@.len() == i,
                over_id_alphabet(s@),
                charset@ == id_alphabet(),
                charset@.len() == 36,
            decreases length - i,
        {
            let k = random_below(36);
            let c = charset.get_char(k);
            push_char(&mut s, c);
            i += 1;
        }
        s
    }
}

} // verus!
