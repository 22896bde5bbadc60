//! The candidates, cut into pages, and the matcher that resolves a typed
//! code on one page.

use vstd::prelude::*;
use vstd::slice::slice_subrange;
use crate::Rect;
use crate::grid::{
    ceil_div, grid_of, held, page_capacity, page_capacity_of, position_of, rendered_width,
    rendered_width_of, Grid,
};
use crate::label::{
    label, label_at, label_index, nth_letter, some_label_starts_with, LABEL_COUNT,
};
use crate::label::{lemma_label_index_inverts, lemma_label_index_sound};
use crate::tui::{
    directory_style, ops, plain_style, Color, Command, Draw, Op, Style, Styled, StyledText,
};
use crate::util::{chars_of, DisplayablePathBuf};

verus! {

/// Why a page or a code was turned down.
#[derive(Debug, Clone, Copy, PartialEq, Eq, Structural)]
pub enum MatchError {
    /// More items than there are codes for one page.
    CapacityExceeded,
    /// No item of the page has the code.
    NoMatch,
}

/// The greatest number of characters in the name of any of the items.
pub open spec fn widest_text(items: Seq<DisplayablePathBuf>) -> nat
    decreases items.len(),
{
    if items.len() == 0 {
        0
    } else {
        let rest = widest_text(items.drop_last());
        if items.last()@.name.len() > rest {
            items.last()@.name.len()
        } else {
            rest
        }
    }
}

/// How many pages `count` items make with `capacity` on each: one empty page
/// where there is no item, none where no item fits.
pub open spec fn page_count_of(count: nat, capacity: nat) -> nat {
    if count == 0 {
        1
    } else {
        ceil_div(count, capacity)
    }
}

/// The items of page `n`: those from `n * capacity` on, up to `capacity` of
/// them.
pub open spec fn page_of(items: Seq<DisplayablePathBuf>, capacity: nat, n: nat) -> Seq<
    DisplayablePathBuf,
> {
    let start = (n * capacity) as int;
    let end = if start + capacity <= items.len() {
        start + capacity
    } else {
        items.len() as int
    };
    if start <= end {
        items.subrange(start, end)
    } else {
        Seq::empty()
    }
}

/// The width by which the pages of `items` are cut: that of the widest of
/// them on the screen, and one where there is no item.
pub open spec fn entry_width(items: Seq<DisplayablePathBuf>) -> nat {
    if items.len() == 0 {
        1
    } else {
        held(rendered_width_of(widest_text(items)))
    }
}

/// How many of `items` go on one page of a rectangle: as many cells as it
/// has for the widest of them, and no more than there are codes.
pub open spec fn capacity_for(items: Seq<DisplayablePathBuf>, bounds: Rect) -> nat {
    page_capacity_of(bounds, entry_width(items))
}

/// The items of page `n` as they are shown in a rectangle; none where there
/// is no such page.
pub open spec fn shown_page(items: Seq<DisplayablePathBuf>, bounds: Rect, n: nat) -> Seq<
    DisplayablePathBuf,
> {
    if n < page_count_of(items.len(), capacity_for(items, bounds)) {
        page_of(items, capacity_for(items, bounds), n)
    } else {
        Seq::empty()
    }
}

/// The item that a typed text stands for: the one at the position whose code
/// it is.
pub open spec fn resolved(items: Seq<DisplayablePathBuf>, typed: Seq<char>) -> Option<
    DisplayablePathBuf,
> {
    match label_index(typed) {
        Some(k) => if k < items.len() {
            Some(items[k])
        } else {
            None
        },
        None => None,
    }
}

/// The greatest number of characters in the name of any of the items.
pub fn widest(items: &[DisplayablePathBuf]) -> (w: usize)
    ensures
        w == widest_text(items@),
{
    let mut w: usize = 0;
    let mut i: usize = 0;
    assert(items@.take(0) =~= Seq::<DisplayablePathBuf>::empty());
    while i < items.len()
        invariant
            i <= items@.len(),
            w == widest_text(items@.take(i as int)),
        decreases items@.len() - i,
    {
        let len = items[i].name().unicode_len();
        proof {
            assert(items@.take(i + 1).drop_last() =~= items@.take(i as int));
            assert(items@.take(i + 1).last() == items@[i as int]);
        }
        if len > w {
            w = len;
        }
        i += 1;
    }
    assert(items@.take(items@.len() as int) =~= items@);
    w
}

/// The candidates of one directory and the rectangle they are shown in.
pub struct Matcher {
    items: Vec<DisplayablePathBuf>,
    entry_size: usize,
    bounds: Rect,
}

impl Matcher {
    /// The candidates, in their order.
    pub closed spec fn items(&self) -> Seq<DisplayablePathBuf> {
        self.items@
    }

    /// The rectangle that the pages are cut for.
    pub closed spec fn bounds(&self) -> Rect {
        self.bounds
    }

    /// The width of the widest candidate on the screen; one where there is
    /// no candidate.
    pub open spec fn entry_size(&self) -> nat {
        entry_width(self.items())
    }

    /// How many items go on one page.
    pub open spec fn capacity(&self) -> nat {
        capacity_for(self.items(), self.bounds())
    }

    /// How many pages there are.
    pub open spec fn page_count(&self) -> nat {
        page_count_of(self.items().len(), self.capacity())
    }

    #[verifier::type_invariant]
    spec fn well_formed(&self) -> bool {
        self.entry_size == entry_width(self.items@)
    }

    /// The candidates can be counted by a machine number.
    pub proof fn lemma_len_fits(&self)
        ensures
            self.items().len() <= usize::MAX,
    {
        assert(self.items@.len() == self.items.len());
    }

    /// The matcher for `items`, shown in `bounds`. Its pages are cut by the
    /// width of the widest item, or by a width of one where there is none.
    pub fn new(items: Vec<DisplayablePathBuf>, bounds: Rect) -> (r: Self)
        ensures
            r.items() == items@,
            r.bounds() == bounds,
            r.entry_size() == entry_width(items@),
    {
        let entry_size = if items.len() == 0 {
            1
        } else {
            rendered_width(widest(items.as_slice()))
        };
        Matcher { items, entry_size, bounds }
    }

    /// The width by which the pages are cut.
    pub fn item_width(&self) -> (w: usize)
        ensures
            w == self.entry_size(),
            self.items().len() == 0 ==> w == 1,
            w >= 1,
    {
        proof {
            use_type_invariant(self);
        }
        self.entry_size
    }

    /// Replaces the candidates; nothing of the old ones is kept.
    pub fn update_entries(&mut self, items: Vec<DisplayablePathBuf>)
        ensures
            final(self).items() == items@,
            final(self).bounds() == old(self).bounds(),
    {
        *self = Matcher::new(items, self.bounds);
    }

    /// The rectangle that the pages are cut for.
    pub fn area(&self) -> (r: Rect)
        ensures
            r == self.bounds(),
    {
        self.bounds
    }

    /// How many candidates there are.
    pub fn len(&self) -> (n: usize)
        ensures
            n == self.items().len(),
    {
        self.items.len()
    }

    /// The candidate at `position`, if there is one.
    pub fn item_at(&self, position: usize) -> (r: Option<&DisplayablePathBuf>)
        ensures
            match r {
                Some(item) => position < self.items().len() && *item == self.items()[position as int],
                None => position >= self.items().len(),
            },
    {
        if position < self.items.len() {
            Some(&self.items[position])
        } else {
            None
        }
    }

    /// Page `n` with nothing typed on it, or nothing where there is no such
    /// page.
    pub fn get(&self, n: usize) -> (r: Option<MatcherPage<'_>>)
        ensures
            match r {
                Some(page) => n < self.page_count() && page.items() == page_of(
                    self.items(),
                    self.capacity(),
                    n as nat,
                ) && page.prefix() == Seq::<char>::empty() && page.style() == Style::Plain,
                None => n >= self.page_count(),
            },
    {
        let capacity = self.page_capacity();
        let count = self.items.len();
        if count == 0 {
            if n > 0 {
                return None;
            }
            assert(page_of(self.items(), self.capacity(), 0) =~= Seq::empty());
            return Some(MatcherPage::default());
        }
        if capacity == 0 {
            return None;
        }
        proof {
            lemma_page_exists(count as nat, capacity as nat, n as nat);
        }
        match n.checked_mul(capacity) {
            Some(start) => {
                if start >= count {
                    return None;
                }
                let end: usize = if count - start < capacity {
                    count
                } else {
                    start + capacity
                };
                match MatcherPage::new(slice_subrange(self.items.as_slice(), start, end)) {
                    Ok(page) => Some(page),
                    Err(_) => None,
                }
            },
            None => None,
        }
    }

    /// How many pages there are.
    pub fn pages(&self) -> (n: usize)
        ensures
            n == self.page_count(),
    {
        let capacity = self.page_capacity();
        let count = self.items.len();
        if count == 0 {
            1
        } else if capacity == 0 {
            0
        } else if count % capacity == 0 {
            count / capacity
        } else {
            assert(count as int / capacity as int <= count as int / 2) by (nonlinear_arith)
                requires
                    capacity >= 2,
                    count >= 0,
            ;
            count / capacity + 1
        }
    }

    /// How many items go on one page.
    pub fn page_capacity(&self) -> (c: usize)
        ensures
            c == self.capacity(),
            c <= 676,
    {
        proof {
            use_type_invariant(self);
        }
        page_capacity(self.bounds, self.entry_size)
    }
}

/// Page `n` exists exactly if its first item does.
pub proof fn lemma_page_exists(count: nat, capacity: nat, n: nat)
    requires
        capacity > 0,
    ensures
        n < ceil_div(count, capacity) <==> n * capacity < count,
{
    let q = count / capacity;
    let r = count % capacity;
    assert(count == q * capacity + r && 0 <= r < capacity) by (nonlinear_arith)
        requires
            q == count / capacity,
            r == count % capacity,
            capacity > 0,
    ;
    if n < q {
        assert(n * capacity < count) by (nonlinear_arith)
            requires
                n + 1 <= q,
                count >= q * capacity,
                capacity > 0,
        ;
    } else if n == q {
        assert(n * capacity == count - r);
    } else {
        assert((q + 1) * capacity == q * capacity + capacity) by (nonlinear_arith);
        assert(n * capacity >= count) by (nonlinear_arith)
            requires
                n >= q + 1,
                count < (q + 1) * capacity,
                capacity > 0,
        ;
    }
}

/// On one page no two positions have the same code.
pub proof fn lemma_codes_distinct_on_page(items: Seq<DisplayablePathBuf>, i: int, j: int)
    requires
        items.len() <= 676,
        0 <= i < items.len(),
        0 <= j < items.len(),
        i != j,
    ensures
        label_at(i) != label_at(j),
{
    crate::label::lemma_labels_distinct(i, j);
}

/// The code of a position resolves to the item at that position, and to no
/// other.
pub proof fn lemma_code_resolves(items: Seq<DisplayablePathBuf>, k: int)
    requires
        items.len() <= 676,
        0 <= k < items.len(),
    ensures
        resolved(items, label_at(k)) == Some(items[k]),
{
    lemma_label_index_inverts(k);
}

/// Whatever resolves is the code of the position of the item it resolves to.
pub proof fn lemma_resolved_is_a_code(items: Seq<DisplayablePathBuf>, typed: Seq<char>)
    requires
        resolved(items, typed) is Some,
    ensures
        exists|k: int|
            0 <= k < items.len() && k < 676 && typed == #[trigger] label_at(k) && resolved(
                items,
                typed,
            ) == Some(items[k]),
{
    lemma_label_index_sound(typed);
    let k = label_index(typed).unwrap();
    assert(typed == label_at(k));
}

/// Every position of the candidates lies on exactly one page: the item at
/// `i` is the item at `i % capacity` of page `i / capacity`, and that page
/// exists.
pub proof fn lemma_pages_partition(items: Seq<DisplayablePathBuf>, capacity: nat, i: int)
    requires
        capacity > 0,
        0 <= i < items.len(),
    ensures
        i / (capacity as int) < page_count_of(items.len(), capacity),
        0 <= i % (capacity as int),
        i % (capacity as int) < page_of(items, capacity, (i / (capacity as int)) as nat).len(),
        page_of(items, capacity, (i / (capacity as int)) as nat)[i % (capacity as int)]
            == items[i],
{
    let c = capacity as int;
    let n = i / c;
    let r = i % c;
    assert(i == n * c + r && 0 <= r < c && n >= 0) by (nonlinear_arith)
        requires
            n == i / c,
            r == i % c,
            c > 0,
            i >= 0,
    ;
    lemma_page_exists(items.len(), capacity, n as nat);
    assert(n * c <= i);
    assert((n as nat) * capacity == n * c);
}

/// A page that exists holds at least one item and at most `capacity`; every
/// page but the last is full.
pub proof fn lemma_page_sizes(items: Seq<DisplayablePathBuf>, capacity: nat, n: nat)
    requires
        capacity > 0,
        items.len() > 0,
        n < page_count_of(items.len(), capacity),
    ensures
        0 < page_of(items, capacity, n).len() <= capacity,
        n + 1 < page_count_of(items.len(), capacity) ==> page_of(items, capacity, n).len()
            == capacity,
        page_of(items, capacity, n).len() == if (n + 1) * capacity <= items.len() {
            capacity as int
        } else {
            items.len() - n * capacity
        },
{
    lemma_page_exists(items.len(), capacity, n);
    lemma_page_exists(items.len(), capacity, n + 1);
    assert((n + 1) * capacity == n * capacity + capacity) by (nonlinear_arith);
}

/// Two pages give the same code to the same position, each for its own item.
pub proof fn lemma_pages_share_codes(
    items: Seq<DisplayablePathBuf>,
    capacity: nat,
    m: nat,
    n: nat,
    k: int,
)
    requires
        0 < capacity <= 676,
        0 <= k < page_of(items, capacity, m).len(),
        0 <= k < page_of(items, capacity, n).len(),
    ensures
        resolved(page_of(items, capacity, m), label_at(k)) == Some(items[m * capacity + k]),
        resolved(page_of(items, capacity, n), label_at(k)) == Some(items[n * capacity + k]),
{
    lemma_code_resolves(page_of(items, capacity, m), k);
    lemma_code_resolves(page_of(items, capacity, n), k);
}

/// No name on the page is longer than the widest, and where there are items
/// one of them is that long.
pub proof fn lemma_widest_text(items: Seq<DisplayablePathBuf>)
    ensures
        forall|i: int| 0 <= i < items.len() ==> (#[trigger] items[i])@.name.len() <= widest_text(items),
        items.len() > 0 ==> exists|i: int|
            0 <= i < items.len() && (#[trigger] items[i])@.name.len() == widest_text(items),
        items.len() == 0 ==> widest_text(items) == 0,
    decreases items.len(),
{
    if items.len() > 0 {
        let rest = items.drop_last();
        lemma_widest_text(rest);
        assert forall|i: int| 0 <= i < items.len() implies (#[trigger] items[i])@.name.len()
            <= widest_text(items) by {
            if i < rest.len() {
                assert(items[i] == rest[i]);
            }
        }
        if items.last()@.name.len() >= widest_text(rest) {
            assert(items[items.len() - 1]@.name.len() == widest_text(items));
        } else {
            let i = choose|i: int|
                0 <= i < rest.len() && (#[trigger] rest[i])@.name.len() == widest_text(rest);
            assert(items[i] == rest[i]);
        }
    }
}

/// There are never more pages than one, or than there are items.
pub proof fn lemma_page_count_bound(count: nat, capacity: nat)
    ensures
        page_count_of(count, capacity) <= if count == 0 {
            1
        } else {
            count
        },
{
    if count > 0 && capacity > 0 {
        assert(count / capacity <= count) by (nonlinear_arith)
            requires
                capacity > 0,
        ;
        if count % capacity != 0 {
            if capacity == 1 {
                assert(count % 1 == 0);
            } else {
                assert(count / capacity < count) by (nonlinear_arith)
                    requires
                        capacity >= 2,
                        count > 0,
                ;
            }
        }
    }
}

/// One page of candidates and what has been typed of a code on it.
pub struct MatcherPage<'a> {
    items: &'a [DisplayablePathBuf],
    input: String,
    style: Style,
}

/// Whether `typed` can stand on a page of `count` items: nothing, or the
/// start of the code of one of them.
pub open spec fn is_valid_prefix(count: nat, typed: Seq<char>) -> bool {
    typed.len() == 0 || some_label_starts_with(count as int, typed)
}

/// A text is the start of a code only if it has no more than two characters.
pub proof fn lemma_prefix_is_short(count: nat, typed: Seq<char>)
    requires
        some_label_starts_with(count as int, typed),
    ensures
        typed.len() <= 2,
{
    let k = choose|k: int|
        0 <= k < count && k < 676 && typed.is_prefix_of(#[trigger] label_at(k));
    assert(label_at(k).len() == 2);
}

impl<'a> MatcherPage<'a> {
    /// The items of the page, in their order.
    pub closed spec fn items(&self) -> Seq<DisplayablePathBuf> {
        self.items@
    }

    /// What has been typed and accepted so far.
    pub closed spec fn prefix(&self) -> Seq<char> {
        self.input@
    }

    /// How the items are made to look.
    pub closed spec fn style(&self) -> Style {
        self.style
    }

    #[verifier::type_invariant]
    spec fn well_formed(&self) -> bool {
        &&& self.items@.len() <= 676
        &&& is_valid_prefix(self.items@.len(), self.input@)
    }

    /// The page of `items`, with nothing typed yet; turned down where there
    /// are more items than codes.
    pub fn new(items: &'a [DisplayablePathBuf]) -> (r: Result<Self, MatchError>)
        ensures
            match r {
                Ok(page) => items@.len() <= 676 && page.items() == items@ && page.prefix()
                    == Seq::<char>::empty() && page.style() == Style::Plain,
                Err(e) => items@.len() > 676 && e == MatchError::CapacityExceeded,
            },
    {
        if items.len() > LABEL_COUNT {
            return Err(MatchError::CapacityExceeded);
        }
        Ok(MatcherPage { items, input: String::new(), style: Style::Plain })
    }

    /// How many items the page holds.
    pub fn len(&self) -> (n: usize)
        ensures
            n == self.items().len(),
            n <= 676,
    {
        proof {
            use_type_invariant(self);
        }
        self.items.len()
    }

    /// What has been typed and accepted so far: at most two characters,
    /// and the start of the code of an item unless it is empty.
    pub fn input(&self) -> (r: &str)
        ensures
            r@ == self.prefix(),
            r@.len() <= 2,
            is_valid_prefix(self.items().len(), r@),
    {
        proof {
            use_type_invariant(self);
            if self.input@.len() > 0 {
                lemma_prefix_is_short(self.items@.len(), self.input@);
            }
        }
        self.input.as_str()
    }

    /// Whether the code of one of the items starts with `pfx`.
    pub fn is_prefix_valid(&self, pfx: &str) -> (r: bool)
        ensures
            r == some_label_starts_with(self.items().len() as int, pfx@),
    {
        proof {
            use_type_invariant(self);
        }
        let typed = chars_of(pfx);
        starts_some_label(self.items.len(), &typed)
    }

    /// The item whose code is exactly `needle`.
    pub fn find(&self, needle: &str) -> (r: Option<&'a DisplayablePathBuf>)
        ensures
            match r {
                Some(item) => resolved(self.items(), needle@) == Some(*item),
                None => resolved(self.items(), needle@) is None,
            },
    {
        proof {
            use_type_invariant(self);
        }
        let typed = chars_of(needle);
        match index_of_label(&typed) {
            Some(k) => if k < self.items.len() {
                Some(&self.items[k])
            } else {
                None
            },
            None => None,
        }
    }

    /// The item whose code is exactly `code`, or the reason there is none.
    pub fn select(&self, code: &str) -> (r: Result<&'a DisplayablePathBuf, MatchError>)
        ensures
            match r {
                Ok(item) => resolved(self.items(), code@) == Some(*item),
                Err(e) => resolved(self.items(), code@) is None && e == MatchError::NoMatch,
            },
    {
        match self.find(code) {
            Some(item) => Ok(item),
            None => Err(MatchError::NoMatch),
        }
    }

    /// The items with their codes, in order.
    pub fn iter(&self) -> (r: Vec<(&'a DisplayablePathBuf, String)>)
        ensures
            r@.len() == self.items().len(),
            forall|i: int|
                0 <= i < r@.len() ==> *(#[trigger] r@[i]).0 == self.items()[i] && r@[i].1@
                    == label_at(i),
    {
        proof {
            use_type_invariant(self);
        }
        let mut out: Vec<(&'a DisplayablePathBuf, String)> = Vec::new();
        let mut i: usize = 0;
        while i < self.items.len()
            invariant
                i <= self.items@.len(),
                self.items@.len() <= 676,
                out@.len() == i,
                forall|j: int|
                    0 <= j < i ==> *(#[trigger] out@[j]).0 == self.items@[j] && out@[j].1@
                        == label_at(j),
            decreases self.items@.len() - i,
        {
            match label(i) {
                Some(code) => {
                    out.push((&self.items[i], code));
                },
                None => {},
            }
            i += 1;
        }
        out
    }

    /// The greatest number of characters in the name of any item of the page.
    pub fn item_size(&self) -> (w: usize)
        ensures
            w == widest_text(self.items()),
    {
        widest(self.items)
    }

    /// Takes `c` as the next character of the code if the code of some item
    /// starts with what is typed then, and says whether it did; what was
    /// typed before stays as it is otherwise.
    pub fn push_char(&mut self, c: char) -> (accepted: bool)
        ensures
            accepted == some_label_starts_with(
                old(self).items().len() as int,
                old(self).prefix().push(c),
            ),
            final(self).prefix() == if accepted {
                old(self).prefix().push(c)
            } else {
                old(self).prefix()
            },
            final(self).prefix().len() <= 2,
            final(self).items() == old(self).items(),
            final(self).style() == old(self).style(),
    {
        proof {
            use_type_invariant(&*self);
            if self.input@.len() > 0 {
                lemma_prefix_is_short(self.items@.len(), self.input@);
            }
        }
        let mut next = self.input.clone();
        next.push(c);
        if self.is_prefix_valid(next.as_str()) {
            self.input = next;
            true
        } else {
            false
        }
    }

    /// Forgets what was typed.
    pub fn clear_input(&mut self)
        ensures
            final(self).prefix() == Seq::<char>::empty(),
            final(self).items() == old(self).items(),
            final(self).style() == old(self).style(),
    {
        proof {
            use_type_invariant(&*self);
        }
        self.input = String::new();
    }

    /// The item that what was typed stands for, once it is a whole code.
    pub fn result(&self) -> (r: Option<&'a DisplayablePathBuf>)
        ensures
            match r {
                Some(item) => resolved(self.items(), self.prefix()) == Some(*item),
                None => resolved(self.items(), self.prefix()) is None,
            },
    {
        self.find(self.input.as_str())
    }

    /// Chooses how the items are made to look.
    pub fn set_style(&mut self, style: Style)
        ensures
            final(self).style() == style,
            final(self).items() == old(self).items(),
            final(self).prefix() == old(self).prefix(),
    {
        proof {
            use_type_invariant(&*self);
        }
        self.style = style;
    }
}

/// Whether `k` is a position with a code and that code starts with `typed`.
pub fn is_start_of_label(typed: &Vec<char>, k: usize) -> (r: bool)
    ensures
        r == (k < 676 && typed@.is_prefix_of(label_at(k as int))),
{
    if k >= LABEL_COUNT || typed.len() > 2 {
        assert(label_at(k as int).len() == 2);
        return false;
    }
    let ghost code = label_at(k as int);
    assert(code.len() == 2);
    let first = nth_letter((k / 26) as u8);
    let second = nth_letter((k % 26) as u8);
    let hit = (typed.len() < 1 || typed[0] == first) && (typed.len() < 2 || typed[1] == second);
    proof {
        assert(code[0] == first && code[1] == second);
        if hit {
            assert(typed@ =~= code.subrange(0, typed@.len() as int));
        } else if typed@.is_prefix_of(code) {
            assert(typed@ == code.subrange(0, typed@.len() as int));
            if typed@.len() >= 1 {
                assert(typed@[0] == code.subrange(0, typed@.len() as int)[0]);
            }
            if typed@.len() >= 2 {
                assert(typed@[1] == code.subrange(0, typed@.len() as int)[1]);
            }
        }
    }
    hit
}

/// Whether the code of one of the first `count` positions starts with `typed`.
pub fn starts_some_label(count: usize, typed: &Vec<char>) -> (r: bool)
    ensures
        r == some_label_starts_with(count as int, typed@),
{
    let limit: usize = if count < LABEL_COUNT {
        count
    } else {
        LABEL_COUNT
    };
    let mut k: usize = 0;
    while k < limit
        invariant
            k <= limit,
            limit <= 676,
            limit <= count,
            count < 676 ==> limit == count,
            forall|j: int| 0 <= j < k ==> !typed@.is_prefix_of(#[trigger] label_at(j)),
        decreases limit - k,
    {
        if is_start_of_label(typed, k) {
            return true;
        }
        k += 1;
    }
    false
}

/// The position whose code `typed` is.
pub fn index_of_label(typed: &Vec<char>) -> (r: Option<usize>)
    ensures
        match r {
            Some(k) => label_index(typed@) == Some(k as int),
            None => label_index(typed@) is None,
        },
{
    if typed.len() != 2 {
        return None;
    }
    let a = typed[0];
    let b = typed[1];
    if 'a' <= a && a <= 'z' && 'a' <= b && b <= 'z' {
        let hi: u32 = a as u32 - 97;
        let lo: u32 = b as u32 - 97;
        Some((hi * 26 + lo) as usize)
    } else {
        None
    }
}

/// Text without colour or weight.
pub open spec fn plain_text(text: Seq<char>) -> Styled {
    Styled { text, color: Color::Plain, bold: false }
}

/// The steps that draw the item at position `i`: its code in brackets, what
/// is typed of it in blue, then its name as it is made to look. No steps
/// where the grid has no place for it.
pub open spec fn cell_frame(typed: Seq<char>, name: Styled, bounds: Rect, grid: Grid, i: int) -> Seq<
    Op,
> {
    match position_of(bounds, 0, grid, i as nat) {
        Some(at) => {
            let code = label_at(i);
            let shown = if typed.is_prefix_of(code) {
                typed
            } else {
                Seq::<char>::empty()
            };
            seq![
                Op::MoveTo(at.0, at.1),
                Op::Print(plain_text(seq!['['])),
                Op::Print(Styled { text: shown, color: Color::Blue, bold: false }),
                Op::Print(plain_text(code.skip(shown.len() as int).push(']'))),
                Op::Print(name),
            ]
        },
        None => Seq::empty(),
    }
}

/// The steps that draw the first `n` items, `names[i]` being the name of
/// item `i` as it is made to look.
pub open spec fn cells_frame(
    typed: Seq<char>,
    names: Seq<Styled>,
    bounds: Rect,
    grid: Grid,
    n: nat,
) -> Seq<Op>
    decreases n,
{
    if n == 0 {
        Seq::empty()
    } else {
        cells_frame(typed, names, bounds, grid, (n - 1) as nat) + cell_frame(
            typed,
            names[n - 1],
            bounds,
            grid,
            n - 1,
        )
    }
}

/// The grid in which the items of a page are laid out: as many cells as
/// there are items, each as wide as the widest of them.
pub open spec fn page_grid(items: Seq<DisplayablePathBuf>, bounds: Rect) -> Grid {
    grid_of(bounds, items.len(), held(rendered_width_of(widest_text(items))))
}

/// The steps that draw a page whose names are made to look as `names` says:
/// to the corner of the rectangle, then item by item.
pub open spec fn frame_of(
    items: Seq<DisplayablePathBuf>,
    typed: Seq<char>,
    names: Seq<Styled>,
    bounds: Rect,
) -> Seq<Op> {
    seq![Op::MoveTo(bounds.x, bounds.y)] + cells_frame(
        typed,
        names,
        bounds,
        page_grid(items, bounds),
        items.len(),
    )
}

/// The names of the items as a style makes them look.
pub open spec fn styled_names(items: Seq<DisplayablePathBuf>, style: Style) -> Seq<Styled> {
    Seq::new(items.len(), |i: int| style.styled(items[i]@))
}

/// The steps that draw a page in one of the two styles that are built in.
pub open spec fn page_frame(
    items: Seq<DisplayablePathBuf>,
    typed: Seq<char>,
    style: Style,
    bounds: Rect,
) -> Seq<Op> {
    frame_of(items, typed, styled_names(items, style), bounds)
}

/// Whether `look` is what the caller's function may make of an item.
pub open spec fn gives_look<F: Fn(&DisplayablePathBuf) -> StyledText>(
    style: F,
    item: DisplayablePathBuf,
    look: Styled,
) -> bool {
    exists|r: StyledText| call_ensures(style, (&item,), r) && r@ == look
}

/// Whether `steps` draw a page with each name made to look as the caller's
/// function says: `names[i]` is what it made of item `i`, for every item
/// that has a place in the grid.
pub open spec fn is_frame_with<F: Fn(&DisplayablePathBuf) -> StyledText>(
    style: F,
    items: Seq<DisplayablePathBuf>,
    typed: Seq<char>,
    bounds: Rect,
    names: Seq<Styled>,
    steps: Seq<Op>,
) -> bool {
    &&& names.len() == items.len()
    &&& forall|i: int|
        0 <= i < names.len() && position_of(bounds, 0, page_grid(items, bounds), i as nat)
            is Some ==> gives_look(style, items[i], #[trigger] names[i])
    &&& steps == frame_of(items, typed, names, bounds)
}

/// The steps that draw the items depend on the names of those items only
/// that have a place in the grid.
pub proof fn lemma_cells_frame_agree(
    typed: Seq<char>,
    a: Seq<Styled>,
    b: Seq<Styled>,
    bounds: Rect,
    grid: Grid,
    n: nat,
)
    requires
        forall|j: int|
            0 <= j < n && position_of(bounds, 0, grid, j as nat) is Some ==> #[trigger] a[j]
                == b[j],
    ensures
        cells_frame(typed, a, bounds, grid, n) == cells_frame(typed, b, bounds, grid, n),
    decreases n,
{
    if n > 0 {
        lemma_cells_frame_agree(typed, a, b, bounds, grid, (n - 1) as nat);
        if position_of(bounds, 0, grid, (n - 1) as nat) is Some {
            assert(a[n - 1] == b[n - 1]);
        }
    }
}

impl<'a> Default for MatcherPage<'a> {
    fn default() -> (r: Self)
        ensures
            r.items() == Seq::<DisplayablePathBuf>::empty(),
            r.prefix() == Seq::<char>::empty(),
            r.style() == Style::Plain,
    {
        let items: &[DisplayablePathBuf] = &[];
        MatcherPage { items, input: String::new(), style: Style::Plain }
    }
}

impl<'a> MatcherPage<'a> {
    /// Adds to `buf` the steps that draw the page, each name made to look as
    /// the caller's function says. The function is asked about the items
    /// that have a place in the grid, in their order.
    pub fn draw_with<F: Fn(&DisplayablePathBuf) -> StyledText>(
        &self,
        bounds: Rect,
        style: &F,
        buf: &mut Vec<Command>,
    )
        requires
            forall|i: int|
                0 <= i < self.items().len() ==> call_requires(
                    *style,
                    (&#[trigger] self.items()[i],),
                ),
        ensures
            exists|names: Seq<Styled>, steps: Seq<Op>|
                {
                    &&& #[trigger] is_frame_with(
                        *style,
                        self.items(),
                        self.prefix(),
                        bounds,
                        names,
                        steps,
                    )
                    &&& ops(final(buf)@) == ops(old(buf)@) + steps
                },
    {
        proof {
            use_type_invariant(self);
        }
        let count = self.items.len();
        let grid = Grid::fit(bounds, count, rendered_width(self.item_size()));
        let typed = chars_of(self.input.as_str());
        let ghost mut names: Seq<Styled> = Seq::empty();
        buf.push(Command::MoveTo(bounds.x, bounds.y));
        assert(ops(buf@) =~= ops(old(buf)@) + seq![Op::MoveTo(bounds.x, bounds.y)]);
        let mut i: usize = 0;
        while i < count
            invariant
                i <= count,
                count == self.items@.len(),
                count <= 676,
                typed@ == self.input@,
                grid == page_grid(self.items@, bounds),
                names.len() == i,
                forall|j: int|
                    0 <= j < self.items@.len() ==> call_requires(
                        *style,
                        (&#[trigger] self.items@[j],),
                    ),
                forall|j: int|
                    0 <= j < i && position_of(bounds, 0, grid, j as nat) is Some ==> gives_look(
                        *style,
                        self.items@[j],
                        #[trigger] names[j],
                    ),
                ops(buf@) == ops(old(buf)@) + seq![Op::MoveTo(bounds.x, bounds.y)] + cells_frame(
                    self.input@,
                    names,
                    bounds,
                    grid,
                    i as nat,
                ),
            decreases count - i,
        {
            let ghost before = buf@;
            let ghost earlier = names;
            match grid.position(bounds, 0, i) {
                Some(at) => {
                    let starts = is_start_of_label(&typed, i);
                    let shown = if starts {
                        self.input.clone()
                    } else {
                        String::new()
                    };
                    let mut bracket = String::new();
                    bracket.push('[');
                    let mut rest = String::new();
                    if !starts || typed.len() < 1 {
                        rest.push(nth_letter((i / 26) as u8));
                    }
                    if !starts || typed.len() < 2 {
                        rest.push(nth_letter((i % 26) as u8));
                    }
                    rest.push(']');
                    proof {
                        let code = label_at(i as int);
                        assert(code.len() == 2);
                        assert(bracket@ =~= seq!['[']);
                        assert(rest@ =~= code.skip(shown@.len() as int).push(']'));
                    }
                    assert(call_requires(*style, (&self.items@[i as int],)));
                    let name = style(&self.items[i]);
                    proof {
                        names = names.push(name@);
                        assert(gives_look(*style, self.items@[i as int], name@));
                    }
                    buf.push(Command::MoveTo(at.0, at.1));
                    buf.push(Command::Print(StyledText::plain(bracket)));
                    buf.push(Command::Print(StyledText::colored(shown, Color::Blue)));
                    buf.push(Command::Print(StyledText::plain(rest)));
                    buf.push(Command::Print(name));
                },
                None => {
                    proof {
                        names = names.push(plain_text(Seq::empty()));
                    }
                },
            }
            proof {
                lemma_cells_frame_agree(self.input@, earlier, names, bounds, grid, i as nat);
                assert(ops(buf@) =~= ops(before) + cell_frame(
                    self.input@,
                    names[i as int],
                    bounds,
                    grid,
                    i as int,
                ));
            }
            i += 1;
            assert(ops(buf@) =~= ops(old(buf)@) + seq![Op::MoveTo(bounds.x, bounds.y)]
                + cells_frame(self.input@, names, bounds, grid, i as nat));
        }
        proof {
            let steps = frame_of(self.items@, self.input@, names, bounds);
            assert(ops(buf@) =~= ops(old(buf)@) + steps);
            assert(is_frame_with(*style, self.items(), self.prefix(), bounds, names, steps));
        }
    }
}

impl<'a> Draw for MatcherPage<'a> {
    open spec fn frame(&self, bounds: Rect) -> Seq<Op> {
        page_frame(self.items(), self.prefix(), self.style(), bounds)
    }

    fn draw(&self, bounds: Rect, buf: &mut Vec<Command>) {
        let ghost wanted = styled_names(self.items(), self.style());
        let ghost grid = page_grid(self.items(), bounds);
        match self.style {
            Style::Plain => {
                self.draw_with(bounds, &plain_style, buf);
                proof {
                    let (names, steps) = choose|names: Seq<Styled>, steps: Seq<Op>|
                        #[trigger] is_frame_with(
                            plain_style,
                            self.items(),
                            self.prefix(),
                            bounds,
                            names,
                            steps,
                        ) && ops(buf@) == ops(old(buf)@) + steps;
                    assert forall|j: int|
                        0 <= j < names.len() && position_of(bounds, 0, grid, j as nat)
                            is Some implies #[trigger] names[j] == wanted[j] by {
                        assert(gives_look(plain_style, self.items()[j], names[j]));
                    }
                    lemma_cells_frame_agree(
                        self.prefix(),
                        names,
                        wanted,
                        bounds,
                        grid,
                        self.items().len(),
                    );
                }
            },
            Style::Directories => {
                self.draw_with(bounds, &directory_style, buf);
                proof {
                    let (names, steps) = choose|names: Seq<Styled>, steps: Seq<Op>|
                        #[trigger] is_frame_with(
                            directory_style,
                            self.items(),
                            self.prefix(),
                            bounds,
                            names,
                            steps,
                        ) && ops(buf@) == ops(old(buf)@) + steps;
                    assert forall|j: int|
                        0 <= j < names.len() && position_of(bounds, 0, grid, j as nat)
                            is Some implies #[trigger] names[j] == wanted[j] by {
                        assert(gives_look(directory_style, self.items()[j], names[j]));
                    }
                    lemma_cells_frame_agree(
                        self.prefix(),
                        names,
                        wanted,
                        bounds,
                        grid,
                        self.items().len(),
                    );
                }
            },
        }
    }
}

} // verus!
