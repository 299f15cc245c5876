//! Metadata of drawn text, and the set that numbers it.
//!
//! Text attributes carry a single number, so that everything else that is drawn
//! behind and around a cell is looked up in a set by that number. The numbers
//! stay the same until the set is compacted or cleared.
use indexmap::IndexSet;
use vstd::prelude::*;

verus! {

/// Declares `indexmap::IndexSet`, a hash set that keeps its items in the order
/// in which they were inserted.
#[verifier::external_type_specification]
#[verifier::external_body]
#[verifier::reject_recursive_types(T)]
#[verifier::reject_recursive_types(S)]
pub struct ExIndexSet<T, S>(indexmap::IndexSet<T, S>);

/// What a cell needs drawn besides its text.
#[derive(Debug, Clone, Copy, PartialEq, Eq, Structural)]
pub struct Metadata {
    /// Background color.
    pub bg: u32,
    pub underline_color: u32,
    /// Flags of the cell, see [`crate::cell`].
    pub flags: u16,
}

impl Metadata {
    pub fn new(bg: u32, underline_color: u32) -> (r: Self)
        ensures
            r == (Metadata { bg, underline_color, flags: 0 }),
    {
        Metadata { bg, underline_color, flags: 0 }
    }

    pub fn with_underline_color(self, underline_color: u32) -> (r: Self)
        ensures
            r == (Metadata { underline_color, ..self }),
    {
        Metadata { underline_color, ..self }
    }

    pub fn with_flags(self, flags: u16) -> (r: Self)
        ensures
            r == (Metadata { flags, ..self }),
    {
        Metadata { flags, ..self }
    }

    /// The item that stands for the metadata in the set.
    pub open spec fn item(self) -> (u32, u32, u16) {
        (self.bg, self.underline_color, self.flags)
    }

    /// The metadata that an item of the set stands for.
    pub open spec fn of_item(item: (u32, u32, u16)) -> Metadata {
        Metadata { bg: item.0, underline_color: item.1, flags: item.2 }
    }
}

/// The items of an `indexmap::IndexSet`, in their order.
pub uninterp spec fn set_items(set: IndexSet<(u32, u32, u16)>) -> Seq<(u32, u32, u16)>;

/// Calls `indexmap::IndexSet::new`, which makes an empty set.
#[verifier::external_body]
fn set_new() -> (set: IndexSet<(u32, u32, u16)>)
    ensures
        set_items(set) == Seq::<(u32, u32, u16)>::empty(),
{
    IndexSet::new()
}

/// Calls `indexmap::IndexSet::len`, which counts the items.
#[verifier::external_body]
fn set_len(set: &IndexSet<(u32, u32, u16)>) -> (r: usize)
    ensures
        r == set_items(*set).len(),
{
    set.len()
}

/// Calls `indexmap::IndexSet::get_index`, which reads the item at a position.
#[verifier::external_body]
fn set_get_index(set: &IndexSet<(u32, u32, u16)>, index: usize) -> (r: Option<(u32, u32, u16)>)
    ensures
        r == (if index < set_items(*set).len() {
            Some(set_items(*set)[index as int])
        } else {
            None
        }),
{
    set.get_index(index).copied()
}

/// Calls `indexmap::IndexSet::insert_full`, which appends an item unless the set
/// has it already, and returns its position and whether it was appended.
#[verifier::external_body]
fn set_insert_full(set: &mut IndexSet<(u32, u32, u16)>, item: (u32, u32, u16)) -> (r: (
    usize,
    bool,
))
    ensures
        set_items(*final(set)) == with_item(set_items(*old(set)), item),
        r.0 < set_items(*final(set)).len(),
        set_items(*final(set))[r.0 as int] == item,
        r.1 == !set_items(*old(set)).contains(item),
{
    set.insert_full(item)
}

/// Calls `indexmap::IndexSet::truncate`, which keeps the first `len` items.
#[verifier::external_body]
fn set_truncate(set: &mut IndexSet<(u32, u32, u16)>, len: usize)
    ensures
        set_items(*final(set)) == (if len < set_items(*old(set)).len() {
            set_items(*old(set)).take(len as int)
        } else {
            set_items(*old(set))
        }),
{
    set.truncate(len);
}

/// Calls `indexmap::IndexSet::clear`, which removes all items.
#[verifier::external_body]
fn set_clear(set: &mut IndexSet<(u32, u32, u16)>)
    ensures
        set_items(*final(set)) == Seq::<(u32, u32, u16)>::empty(),
{
    set.clear();
}

/// The items after one was inserted: it is appended unless it is there.
pub open spec fn with_item(items: Seq<(u32, u32, u16)>, item: (u32, u32, u16)) -> Seq<
    (u32, u32, u16),
> {
    if items.contains(item) {
        items
    } else {
        items.push(item)
    }
}

/// Metadata by number. Nothing occurs twice, and what came first stays first.
pub struct MetadataSet {
    set: IndexSet<(u32, u32, u16)>,
}

impl View for MetadataSet {
    type V = Seq<(u32, u32, u16)>;

    closed spec fn view(&self) -> Seq<(u32, u32, u16)> {
        set_items(self.set)
    }
}

impl MetadataSet {
    pub open spec fn wf(self) -> bool {
        self@.no_duplicates()
    }

    pub fn new() -> (r: Self)
        ensures
            r.wf(),
            r@ == Seq::<(u32, u32, u16)>::empty(),
    {
        MetadataSet { set: set_new() }
    }

    pub fn len(&self) -> (r: usize)
        ensures
            r == self@.len(),
    {
        set_len(&self.set)
    }

    /// The metadata with the given number, if there is any.
    pub fn get(&self, index: usize) -> (r: Option<Metadata>)
        ensures
            r == (if index < self@.len() {
                Some(Metadata::of_item(self@[index as int]))
            } else {
                None
            }),
    {
        match set_get_index(&self.set, index) {
            Some(item) => Some(Metadata { bg: item.0, underline_color: item.1, flags: item.2 }),
            None => None,
        }
    }

    /// The number of the given metadata, which is added if it is new.
    pub fn insert_full(&mut self, metadata: Metadata) -> (r: (usize, bool))
        requires
            old(self).wf(),
        ensures
            final(self).wf(),
            final(self)@ == with_item(old(self)@, metadata.item()),
            final(self)@.len() >= 1,
            r.0 == final(self)@.index_of(metadata.item()),
            r.0 < final(self)@.len(),
            r.1 == !old(self)@.contains(metadata.item()),
    {
        let item = (metadata.bg, metadata.underline_color, metadata.flags);
        let r = set_insert_full(&mut self.set, item);
        proof {
            let before = old(self)@;
            let after = self@;
            assert(after.no_duplicates()) by {
                if !before.contains(item) {
                    assert forall|i: int, j: int|
                        0 <= i < after.len() && 0 <= j < after.len() && i != j implies after[i]
                        != after[j] by {
                        if i < before.len() {
                            assert(before.contains(before[i]));
                        }
                        if j < before.len() {
                            assert(before.contains(before[j]));
                        }
                    }
                }
            }
            assert(after.contains(item));
        }
        r
    }

    /// Keeps the first `len` numbers.
    pub fn truncate(&mut self, len: usize)
        requires
            old(self).wf(),
        ensures
            final(self).wf(),
            final(self)@ == (if len < old(self)@.len() {
                old(self)@.take(len as int)
            } else {
                old(self)@
            }),
    {
        set_truncate(&mut self.set, len);
    }

    pub fn clear(&mut self)
        ensures
            final(self).wf(),
            final(self)@ == Seq::<(u32, u32, u16)>::empty(),
    {
        set_clear(&mut self.set);
    }
}

/// Inserting keeps the numbers of all metadata that was there, and the inserted
/// metadata is found under its number.
pub proof fn law_numbers_are_stable(items: Seq<(u32, u32, u16)>, item: (u32, u32, u16), k: int)
    requires
        items.no_duplicates(),
        0 <= k < items.len(),
    ensures
        with_item(items, item)[k] == items[k],
        with_item(items, item).contains(item),
        with_item(items, item)[with_item(items, item).index_of(item)] == item,
{
    let after = with_item(items, item);
    if !items.contains(item) {
        assert(after[items.len() as int] == item);
    }
}

/// Every kind of metadata has one number: what is there is found again, and what is new
/// gets the next free number.
pub proof fn law_new_metadata_gets_the_next_number(
    items: Seq<(u32, u32, u16)>,
    item: (u32, u32, u16),
    k: int,
)
    requires
        items.no_duplicates(),
    ensures
        ({
            let after = with_item(items, item);
            &&& after.no_duplicates()
            &&& 0 <= k < items.len() && items[k] == item ==> after.len() == items.len()
                && after.index_of(item) == k
            &&& (forall|i: int| 0 <= i < items.len() ==> #[trigger] items[i] != item) ==> after.len()
                == items.len() + 1 && after.index_of(item) == items.len()
        }),
{
    let after = with_item(items, item);
    assert(after.no_duplicates()) by {
        assert forall|i: int, j: int| 0 <= i < after.len() && 0 <= j < after.len() && i != j implies
            after[i] != after[j] by {
            if !items.contains(item) {
                if i < items.len() {
                    assert(items.contains(items[i]));
                }
                if j < items.len() {
                    assert(items.contains(items[j]));
                }
            }
        }
    }
    if 0 <= k < items.len() && items[k] == item {
        assert(items.contains(item));
        assert(after.index_of(item) == k);
    }
    if forall|i: int| 0 <= i < items.len() ==> #[trigger] items[i] != item {
        assert(!items.contains(item));
        assert(after[items.len() as int] == item);
        assert(after.contains(item));
    }
}

/// An item of the set keeps all that metadata holds, and nothing else.
pub proof fn law_items_hold_the_metadata(metadata: Metadata)
    ensures
        metadata.item() == (metadata.bg, metadata.underline_color, metadata.flags),
        Metadata::of_item(metadata.item()) == metadata,
{
}

} // verus!
