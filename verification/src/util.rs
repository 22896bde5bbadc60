//! Directory entries and the order in which they are offered.

use vstd::prelude::*;

verus! {

/// What is known of a directory entry: where it is, what it is shown as, and
/// whether it is a directory.
pub struct Entry {
    pub path: Seq<char>,
    pub name: Seq<char>,
    pub is_dir: bool,
}

/// A directory entry that is shown by its last component.
#[derive(Debug, Clone, PartialEq, Eq)]
pub struct DisplayablePathBuf {
    path: String,
    name: String,
    is_dir: bool,
}

impl View for DisplayablePathBuf {
    type V = Entry;

    closed spec fn view(&self) -> Entry {
        Entry { path: self.path@, name: self.name@, is_dir: self.is_dir }
    }
}

impl DisplayablePathBuf {
    /// An entry at `path`, shown as `name`.
    pub fn new(path: String, name: String, is_dir: bool) -> (r: Self)
        ensures
            r@ == (Entry { path: path@, name: name@, is_dir }),
    {
        Self { path, name, is_dir }
    }

    /// The full path.
    pub fn get(&self) -> (r: &String)
        ensures
            r@ == self@.path,
    {
        &self.path
    }

    /// The text that stands for the entry on the screen.
    pub fn name(&self) -> (r: &str)
        ensures
            r@ == self@.name,
    {
        self.name.as_str()
    }

    /// The text that stands for the entry on the screen, as a string of its own.
    pub fn to_string(&self) -> (r: String)
        ensures
            r@ == self@.name,
    {
        self.name.clone()
    }

    /// Whether the entry is a directory.
    pub fn is_dir(&self) -> (r: bool)
        ensures
            r == self@.is_dir,
    {
        self.is_dir
    }

    /// Whether the entry is anything but a directory.
    pub fn is_file(&self) -> (r: bool)
        ensures
            r == !self@.is_dir,
    {
        !self.is_dir
    }
}

/// A name is hidden when it starts with a dot.
pub open spec fn is_hidden(name: Seq<char>) -> bool {
    name.len() > 0 && name[0] == '.'
}

/// Whether an entry is offered under the given setting.
pub open spec fn is_offered(e: Entry, show_hidden: bool) -> bool {
    show_hidden || !is_hidden(e.name)
}

/// Whether the entry's name starts with a dot.
pub fn is_dotfile(entry: &DisplayablePathBuf) -> (r: bool)
    ensures
        r == is_hidden(entry@.name),
{
    let name = entry.name();
    !name.is_empty() && name.get_char(0) == '.'
}

/// Drops the hidden entries unless they are asked for, and keeps the others
/// in the order in which they came.
pub fn visible_entries(entries: Vec<DisplayablePathBuf>, show_hidden: bool) -> (r: Vec<
    DisplayablePathBuf,
>)
    ensures
        r@ == entries@.filter(|e: DisplayablePathBuf| is_offered(e@, show_hidden)),
{
    let ghost keep = |e: DisplayablePathBuf| is_offered(e@, show_hidden);
    let ghost all = entries@;
    let mut kept: Vec<DisplayablePathBuf> = Vec::new();
    assert(all.take(0).filter(keep) =~= Seq::<DisplayablePathBuf>::empty());
    for entry in it: entries
        invariant
            keep == (|e: DisplayablePathBuf| is_offered(e@, show_hidden)),
            it.seq() == all,
            kept@ == it.seq().take(it.index() as int).filter(keep),
    {
        proof {
            let i = it.index() as int;
            reveal(Seq::filter);
            assert(all.take(i + 1).drop_last() =~= all.take(i));
            assert(all.take(i + 1).last() == entry);
        }
        if show_hidden || !is_dotfile(&entry) {
            kept.push(entry);
        }
    }
    assert(all.take(all.len() as int) =~= all);
    kept
}

/// `String::push` appends the given character to the end of the string.
pub assume_specification[ String::push ](s: &mut String, ch: char)
    ensures
        final(s)@ == old(s)@.push(ch),
;

/// The lowercase form of a text, as `str::to_lowercase` gives it.
pub uninterp spec fn lowercase(s: Seq<char>) -> Seq<char>;

/// `str::to_lowercase` returns the lowercase equivalent of the string as a new
/// string; it depends on the characters of the string alone.
pub assume_specification[ str::to_lowercase ](s: &str) -> (r: String)
    ensures
        r@ == lowercase(s@),
;

/// A text without the dots it starts with.
pub open spec fn strip_dots(s: Seq<char>) -> Seq<char>
    decreases s.len(),
{
    if s.len() > 0 && s[0] == '.' {
        strip_dots(s.drop_first())
    } else {
        s
    }
}

/// The text by which a name is ordered: lowercase, leading dots left out.
pub open spec fn sort_text(name: Seq<char>) -> Seq<char> {
    strip_dots(lowercase(name))
}

/// Strict lexicographic order on texts, character by character.
pub open spec fn text_before(a: Seq<char>, b: Seq<char>) -> bool
    decreases a.len(),
{
    if b.len() == 0 {
        false
    } else if a.len() == 0 {
        true
    } else if a[0] != b[0] {
        a[0] < b[0]
    } else {
        text_before(a.drop_first(), b.drop_first())
    }
}

/// The strict order of the candidates: directories first, then by text.
pub open spec fn comes_before(a_dir: bool, a: Seq<char>, b_dir: bool, b: Seq<char>) -> bool {
    (a_dir && !b_dir) || (a_dir == b_dir && text_before(a, b))
}

/// Whether the entry that stood at `i` has to stand before the one that stood
/// at `j`: it comes before it in the order, or neither comes before the other
/// and it stood first.
pub open spec fn stands_before(
    entries: Seq<DisplayablePathBuf>,
    texts: Seq<Seq<char>>,
    i: int,
    j: int,
) -> bool {
    comes_before(entries[i]@.is_dir, texts[i], entries[j]@.is_dir, texts[j]) || (!comes_before(
        entries[j]@.is_dir,
        texts[j],
        entries[i]@.is_dir,
        texts[i],
    ) && i < j)
}

/// `after` holds the entries of `before`, the one at `from[k]` now at `k`, in
/// the order of their texts, equal ones in the order in which they stood.
pub open spec fn is_stable_order(
    before: Seq<DisplayablePathBuf>,
    texts: Seq<Seq<char>>,
    after: Seq<DisplayablePathBuf>,
    from: Seq<int>,
) -> bool {
    &&& after.len() == before.len()
    &&& from.len() == before.len()
    &&& forall|k: int|
        0 <= k < from.len() ==> 0 <= #[trigger] from[k] < before.len() && after[k]
            == before[from[k]]
    &&& forall|k: int, l: int|
        0 <= k < l < from.len() ==> stands_before(before, texts, #[trigger] from[k], #[trigger] from[l])
}

/// `after` is `before` sorted by `texts`, with directories first and ties
/// left in their order: the same entries, each as often as before.
pub open spec fn is_sorted_from(
    before: Seq<DisplayablePathBuf>,
    texts: Seq<Seq<char>>,
    after: Seq<DisplayablePathBuf>,
) -> bool {
    &&& after.to_multiset() == before.to_multiset()
    &&& exists|from: Seq<int>| is_stable_order(before, texts, after, from)
}

/// The texts by which the entries are ordered.
pub open spec fn sort_texts(entries: Seq<DisplayablePathBuf>) -> Seq<Seq<char>> {
    Seq::new(entries.len(), |i: int| sort_text(entries[i]@.name))
}

/// Where one text is before another, any third text is after the one or
/// before the other.
pub proof fn lemma_text_before_splits(a: Seq<char>, b: Seq<char>, c: Seq<char>)
    requires
        text_before(a, c),
    ensures
        text_before(a, b) || text_before(b, c),
    decreases a.len(),
{
    if b.len() > 0 && a.len() > 0 && a[0] == b[0] && b[0] == c[0] {
        lemma_text_before_splits(a.drop_first(), b.drop_first(), c.drop_first());
    }
}

/// No text is before one that is before it.
pub proof fn lemma_text_before_asymmetric(a: Seq<char>, b: Seq<char>)
    requires
        text_before(a, b),
    ensures
        !text_before(b, a),
    decreases a.len(),
{
    if a.len() > 0 && b.len() > 0 && a[0] == b[0] {
        lemma_text_before_asymmetric(a.drop_first(), b.drop_first());
    }
}

/// The characters of a text.
pub fn chars_of(s: &str) -> (r: Vec<char>)
    ensures
        r@ == s@,
{
    let mut out: Vec<char> = Vec::new();
    let ghost all = s@;
    for c in it: s.chars()
        invariant
            it.seq() == all,
            out@ == all.take(it.index() as int),
    {
        proof {
            assert(all.take(it.index() + 1) =~= all.take(it.index() as int).push(c));
        }
        out.push(c);
    }
    proof {
        assert(all.take(all.len() as int) =~= all);
    }
    out
}

/// The characters of a text, its leading dots left out.
pub fn chars_after_dots(s: &str) -> (r: Vec<char>)
    ensures
        r@ == strip_dots(s@),
{
    let mut out: Vec<char> = Vec::new();
    let mut leading: bool = true;
    let ghost all = s@;
    assert(all.skip(0) =~= all);
    for c in it: s.chars()
        invariant
            it.seq() == all,
            leading ==> out@.len() == 0 && strip_dots(all) == strip_dots(
                all.skip(it.index() as int),
            ),
            !leading ==> out@ + all.skip(it.index() as int) == strip_dots(all),
    {
        let ghost i = it.index() as int;
        proof {
            assert(all.skip(i).drop_first() =~= all.skip(i + 1));
            assert(all.skip(i)[0] == c);
        }
        if !leading || c != '.' {
            proof {
                assert(out@.push(c) + all.skip(i + 1) =~= out@ + all.skip(i));
            }
            leading = false;
            out.push(c);
        }
    }
    proof {
        assert(all.skip(all.len() as int) =~= Seq::<char>::empty());
        assert(out@ + Seq::<char>::empty() =~= out@);
    }
    out
}

/// Whether `a` is before `b` in the lexicographic order.
pub fn text_less(a: &Vec<char>, b: &Vec<char>) -> (r: bool)
    ensures
        r == text_before(a@, b@),
{
    let mut i: usize = 0;
    assert(a@.skip(0) =~= a@ && b@.skip(0) =~= b@);
    while i < a.len() && i < b.len()
        invariant
            i <= a.len(),
            i <= b.len(),
            text_before(a@, b@) == text_before(a@.skip(i as int), b@.skip(i as int)),
        decreases a.len() - i,
    {
        proof {
            assert(a@.skip(i as int).drop_first() =~= a@.skip(i + 1));
            assert(b@.skip(i as int).drop_first() =~= b@.skip(i + 1));
            assert(a@.skip(i as int)[0] == a@[i as int]);
            assert(b@.skip(i as int)[0] == b@[i as int]);
        }
        if a[i] != b[i] {
            return a[i] < b[i];
        }
        i += 1;
    }
    i < b.len()
}

/// Whether an entry with the one text comes before an entry with the other.
pub fn entry_less(a_dir: bool, a: &Vec<char>, b_dir: bool, b: &Vec<char>) -> (r: bool)
    ensures
        r == comes_before(a_dir, a@, b_dir, b@),
{
    if a_dir != b_dir {
        a_dir
    } else {
        text_less(a, b)
    }
}

/// The entries of a sequence of pairs of a text and an entry.
pub open spec fn keyed_entries(pairs: Seq<(Vec<char>, DisplayablePathBuf)>) -> Seq<
    DisplayablePathBuf,
> {
    Seq::new(pairs.len(), |i: int| pairs[i].1)
}

/// The texts of a sequence of pairs of a text and an entry.
pub open spec fn keyed_texts(pairs: Seq<(Vec<char>, DisplayablePathBuf)>) -> Seq<Seq<char>> {
    Seq::new(pairs.len(), |i: int| pairs[i].0@)
}

/// Orders entries by the texts that come with them: directories first, then
/// by text, entries that the order does not part staying as they stood.
pub fn sort_keyed(pairs: Vec<(Vec<char>, DisplayablePathBuf)>) -> (sorted: Vec<
    DisplayablePathBuf,
>)
    ensures
        is_sorted_from(keyed_entries(pairs@), keyed_texts(pairs@), sorted@),
{
    let ghost before = keyed_entries(pairs@);
    let ghost texts = keyed_texts(pairs@);
    let mut pairs = pairs;
    let mut out: Vec<DisplayablePathBuf> = Vec::new();
    let mut out_keys: Vec<Vec<char>> = Vec::new();
    let ghost mut from: Seq<int> = Seq::empty();
    assert(keyed_entries(pairs@) =~= before);
    assert(out@.to_multiset().add(before.to_multiset()) =~= before.to_multiset()) by {
        broadcast use vstd::seq_lib::group_to_multiset_ensures;
    }
    while pairs.len() > 0
        invariant
            texts.len() == before.len(),
            pairs@.len() <= before.len(),
            forall|i: int|
                0 <= i < pairs@.len() ==> (#[trigger] pairs@[i]).1 == before[i] && pairs@[i].0@
                    == texts[i],
            out@.to_multiset().add(keyed_entries(pairs@).to_multiset()) == before.to_multiset(),
            out@.len() == before.len() - pairs@.len(),
            out_keys@.len() == out@.len(),
            from.len() == out@.len(),
            forall|k: int|
                0 <= k < from.len() ==> pairs@.len() <= #[trigger] from[k] < before.len()
                    && out@[k] == before[from[k]] && out_keys@[k]@ == texts[from[k]],
            forall|k: int, l: int|
                0 <= k < l < from.len() ==> stands_before(
                    before,
                    texts,
                    #[trigger] from[k],
                    #[trigger] from[l],
                ),
        decreases pairs@.len(),
    {
        let ghost m = pairs@.len() - 1;
        let ghost rest = keyed_entries(pairs@);
        let ghost sorted = out@;
        let (key, entry) = pairs.pop().unwrap();
        assert(entry == before[m]);
        assert(key@ == texts[m]);
        let mut j: usize = 0;
        while j < out.len() && entry_less(out[j].is_dir(), &out_keys[j], entry.is_dir(), &key)
            invariant
                j <= out@.len(),
                out_keys@.len() == out@.len(),
                forall|k: int|
                    0 <= k < j ==> comes_before(
                        (#[trigger] out@[k])@.is_dir,
                        out_keys@[k]@,
                        entry@.is_dir,
                        key@,
                    ),
            decreases out@.len() - j,
        {
            j += 1;
        }
        proof {
            let ghost from_new = from.insert(j as int, m);
            assert forall|k: int, l: int| 0 <= k < l < from_new.len() implies stands_before(
                before,
                texts,
                #[trigger] from_new[k],
                #[trigger] from_new[l],
            ) by {
                if l == j {
                    assert(from_new[k] == from[k]);
                    assert(out@[k] == before[from[k]]);
                } else if k == j {
                    let x = from[l - 1];
                    assert(from_new[l] == x);
                    assert(out@[l - 1] == before[x]);
                    let y = from[j as int];
                    assert(out@[j as int] == before[y]);
                    if comes_before(before[x]@.is_dir, texts[x], entry@.is_dir, key@) {
                        if before[x]@.is_dir == entry@.is_dir {
                            lemma_text_before_splits(texts[x], texts[y], key@);
                        }
                        if j < l - 1 {
                            assert(stands_before(before, texts, from[j as int], from[l - 1]));
                            if before[x]@.is_dir == before[y]@.is_dir && text_before(
                                texts[x],
                                texts[y],
                            ) {
                                lemma_text_before_asymmetric(texts[x], texts[y]);
                            }
                        }
                    }
                } else {
                    let k0 = if k < j { k } else { k - 1 };
                    let l0 = if l < j { l } else { l - 1 };
                    assert(from_new[k] == from[k0]);
                    assert(from_new[l] == from[l0]);
                    assert(stands_before(before, texts, from[k0], from[l0]));
                }
            }
            assert forall|k: int| 0 <= k < from_new.len() implies m <= #[trigger] from_new[k]
                < before.len() && out@.insert(j as int, entry)[k] == before[from_new[k]]
                && out_keys@.insert(j as int, key)[k]@ == texts[from_new[k]] by {
                if k != j {
                    let k0 = if k < j { k } else { k - 1 };
                    assert(from_new[k] == from[k0]);
                }
            }
            from = from_new;
        }
        out.insert(j, entry);
        out_keys.insert(j, key);
        proof {
            assert(keyed_entries(pairs@) =~= rest.remove(m));
            assert(rest.contains(rest[m]));
            vstd::seq_lib::to_multiset_contains(rest, entry);
            vstd::seq_lib::to_multiset_remove(rest, m);
            vstd::seq_lib::to_multiset_insert(sorted, j as int, entry);
            assert(out@.to_multiset().add(keyed_entries(pairs@).to_multiset())
                =~= sorted.to_multiset().add(rest.to_multiset()));
        }
    }
    proof {
        assert(is_stable_order(before, texts, out@, from));
        assert(keyed_entries(pairs@) =~= Seq::<DisplayablePathBuf>::empty());
        assert(out@.to_multiset() =~= before.to_multiset()) by {
            broadcast use vstd::seq_lib::group_to_multiset_ensures;
        }
    }
    out
}

/// Orders the entries as they are offered: directories before files, each
/// group by its names in lowercase with the leading dots left out, entries
/// with the same such text staying as they stood.
pub fn sort_entries(entries: &mut Vec<DisplayablePathBuf>)
    ensures
        is_sorted_from(old(entries)@, sort_texts(old(entries)@), final(entries)@),
{
    let ghost all = entries@;
    let mut taken: Vec<DisplayablePathBuf> = Vec::new();
    std::mem::swap(entries, &mut taken);
    let mut pairs: Vec<(Vec<char>, DisplayablePathBuf)> = Vec::new();
    for entry in it: taken
        invariant
            it.seq() == all,
            pairs@.len() == it.index(),
            forall|k: int|
                0 <= k < pairs@.len() ==> (#[trigger] pairs@[k]).1 == all[k] && pairs@[k].0@
                    == sort_text(all[k]@.name),
    {
        let lowered = entry.name().to_lowercase();
        let key = chars_after_dots(lowered.as_str());
        pairs.push((key, entry));
    }
    assert(keyed_entries(pairs@) =~= all);
    assert(keyed_texts(pairs@) =~= sort_texts(all));
    *entries = sort_keyed(pairs);
}

/// The entries of `raw` that are offered under the setting.
pub open spec fn offered(raw: Seq<DisplayablePathBuf>, show_hidden: bool) -> Seq<
    DisplayablePathBuf,
> {
    raw.filter(|e: DisplayablePathBuf| is_offered(e@, show_hidden))
}

/// `set` is what is made of the raw entries of a directory: the hidden ones
/// left out unless they are asked for, the others in order.
pub open spec fn is_candidate_set(
    raw: Seq<DisplayablePathBuf>,
    show_hidden: bool,
    set: Seq<DisplayablePathBuf>,
) -> bool {
    is_sorted_from(offered(raw, show_hidden), sort_texts(offered(raw, show_hidden)), set)
}

/// Makes the candidates of a directory from its raw entries.
pub fn rebuild(raw_entries: Vec<DisplayablePathBuf>, show_hidden: bool) -> (set: Vec<
    DisplayablePathBuf,
>)
    ensures
        is_candidate_set(raw_entries@, show_hidden, set@),
{
    let mut set = visible_entries(raw_entries, show_hidden);
    sort_entries(&mut set);
    set
}

/// In a sorted sequence no entry comes before one that stands before it:
/// every directory stands before every file, and within either group the
/// texts never go down.
pub proof fn lemma_sorted_order(
    before: Seq<DisplayablePathBuf>,
    texts: Seq<Seq<char>>,
    after: Seq<DisplayablePathBuf>,
    from: Seq<int>,
    k: int,
    l: int,
)
    requires
        is_stable_order(before, texts, after, from),
        0 <= k < l < after.len(),
    ensures
        after[l]@.is_dir ==> after[k]@.is_dir,
        after[k]@.is_dir == after[l]@.is_dir ==> !text_before(texts[from[l]], texts[from[k]]),
{
    assert(stands_before(before, texts, from[k], from[l]));
    assert(after[k] == before[from[k]]);
    assert(after[l] == before[from[l]]);
    if after[k]@.is_dir == after[l]@.is_dir && text_before(texts[from[k]], texts[from[l]]) {
        lemma_text_before_asymmetric(texts[from[k]], texts[from[l]]);
    }
}

/// No entry comes before one that comes before it.
pub proof fn lemma_comes_before_asymmetric(a_dir: bool, a: Seq<char>, b_dir: bool, b: Seq<char>)
    requires
        comes_before(a_dir, a, b_dir, b),
    ensures
        !comes_before(b_dir, b, a_dir, a),
{
    if a_dir == b_dir {
        lemma_text_before_asymmetric(a, b);
    }
}

/// A stable order takes every place of `before` exactly once.
pub proof fn lemma_stable_order_is_a_permutation(
    before: Seq<DisplayablePathBuf>,
    texts: Seq<Seq<char>>,
    after: Seq<DisplayablePathBuf>,
    from: Seq<int>,
)
    requires
        is_stable_order(before, texts, after, from),
    ensures
        forall|k: int, l: int|
            0 <= k < from.len() && 0 <= l < from.len() && k != l ==> #[trigger] from[k]
                != #[trigger] from[l],
        forall|i: int| 0 <= i < before.len() ==> from.contains(i),
{
    let n = before.len() as int;
    assert forall|k: int, l: int|
        0 <= k < from.len() && 0 <= l < from.len() && k != l implies #[trigger] from[k]
        != #[trigger] from[l] by {
        let (lo, hi) = if k < l {
            (k, l)
        } else {
            (l, k)
        };
        assert(stands_before(before, texts, from[lo], from[hi]));
        if from[lo] == from[hi] {
            let i = from[lo];
            if comes_before(before[i]@.is_dir, texts[i], before[i]@.is_dir, texts[i]) {
                lemma_comes_before_asymmetric(
                    before[i]@.is_dir,
                    texts[i],
                    before[i]@.is_dir,
                    texts[i],
                );
            }
        }
    }
    assert(from.no_duplicates());
    from.unique_seq_to_set();
    vstd::set_lib::lemma_int_range(0, n);
    let range = vstd::set_lib::set_int_range(0, n);
    assert(from.to_set().subset_of(range)) by {
        assert forall|v: int| from.to_set().contains(v) implies range.contains(v) by {
            let k = choose|k: int| 0 <= k < from.len() && from[k] == v;
            assert(0 <= from[k] < n);
        }
    }
    vstd::set_lib::lemma_set_subset_finite(range, from.to_set());
    vstd::set_lib::lemma_subset_equality(from.to_set(), range);
    assert forall|i: int| 0 <= i < before.len() implies from.contains(i) by {
        assert(range.contains(i));
        assert(from.to_set().contains(i));
    }
}

/// Two stable orders of the same entries by the same texts agree up to
/// place `upto`.
proof fn lemma_stable_orders_agree(
    before: Seq<DisplayablePathBuf>,
    texts: Seq<Seq<char>>,
    first: Seq<DisplayablePathBuf>,
    from_first: Seq<int>,
    second: Seq<DisplayablePathBuf>,
    from_second: Seq<int>,
    upto: int,
)
    requires
        is_stable_order(before, texts, first, from_first),
        is_stable_order(before, texts, second, from_second),
        0 <= upto <= before.len(),
    ensures
        forall|k: int| 0 <= k < upto ==> from_first[k] == from_second[k],
    decreases upto,
{
    if upto > 0 {
        lemma_stable_orders_agree(
            before,
            texts,
            first,
            from_first,
            second,
            from_second,
            upto - 1,
        );
        lemma_stable_order_is_a_permutation(before, texts, first, from_first);
        lemma_stable_order_is_a_permutation(before, texts, second, from_second);
        let k = upto - 1;
        let v = from_first[k];
        let w = from_second[k];
        if v != w {
            // Each of the two stands at a later place in the other order.
            assert(from_second.contains(v));
            let l = choose|l: int| 0 <= l < from_second.len() && from_second[l] == v;
            assert(l > k) by {
                if l < k {
                    assert(from_first[l] == from_second[l]);
                }
            }
            assert(stands_before(before, texts, from_second[k], from_second[l]));
            assert(from_first.contains(w));
            let m = choose|m: int| 0 <= m < from_first.len() && from_first[m] == w;
            assert(m > k) by {
                if m < k {
                    assert(from_first[m] == from_second[m]);
                }
            }
            assert(stands_before(before, texts, from_first[k], from_first[m]));
            if comes_before(before[v]@.is_dir, texts[v], before[w]@.is_dir, texts[w]) {
                lemma_comes_before_asymmetric(
                    before[v]@.is_dir,
                    texts[v],
                    before[w]@.is_dir,
                    texts[w],
                );
            }
        }
    }
}

/// There is one way only to sort: two sequences that are both `before`
/// sorted by `texts` are the same sequence.
pub proof fn lemma_sorted_is_unique(
    before: Seq<DisplayablePathBuf>,
    texts: Seq<Seq<char>>,
    first: Seq<DisplayablePathBuf>,
    second: Seq<DisplayablePathBuf>,
)
    requires
        is_sorted_from(before, texts, first),
        is_sorted_from(before, texts, second),
    ensures
        first == second,
{
    let from_first = choose|from: Seq<int>| is_stable_order(before, texts, first, from);
    let from_second = choose|from: Seq<int>| is_stable_order(before, texts, second, from);
    lemma_stable_orders_agree(
        before,
        texts,
        first,
        from_first,
        second,
        from_second,
        before.len() as int,
    );
    assert forall|k: int| 0 <= k < first.len() implies first[k] == second[k] by {
        assert(first[k] == before[from_first[k]]);
        assert(second[k] == before[from_second[k]]);
    }
    assert(first =~= second);
}

/// The candidates stand in their order: directories before files, and
/// within either group by their names in lowercase without leading dots.
pub proof fn lemma_candidates_in_order(
    raw: Seq<DisplayablePathBuf>,
    show_hidden: bool,
    set: Seq<DisplayablePathBuf>,
    k: int,
    l: int,
)
    requires
        is_candidate_set(raw, show_hidden, set),
        0 <= k < l < set.len(),
    ensures
        set[l]@.is_dir ==> set[k]@.is_dir,
        set[k]@.is_dir == set[l]@.is_dir ==> !text_before(
            sort_text(set[l]@.name),
            sort_text(set[k]@.name),
        ),
{
    let before = offered(raw, show_hidden);
    let from = choose|from: Seq<int>| is_stable_order(before, sort_texts(before), set, from);
    lemma_sorted_order(before, sort_texts(before), set, from, k, l);
    assert(set[k] == before[from[k]]);
    assert(set[l] == before[from[l]]);
}

/// Every candidate is one of the raw entries, and none is hidden unless the
/// hidden ones are asked for; every raw entry that is offered is a candidate.
pub proof fn lemma_candidates_are_the_offered(
    raw: Seq<DisplayablePathBuf>,
    show_hidden: bool,
    set: Seq<DisplayablePathBuf>,
)
    requires
        is_candidate_set(raw, show_hidden, set),
    ensures
        set.len() == offered(raw, show_hidden).len(),
        forall|k: int|
            0 <= k < set.len() ==> raw.contains(#[trigger] set[k]) && is_offered(
                set[k]@,
                show_hidden,
            ),
        forall|i: int|
            0 <= i < raw.len() && is_offered((#[trigger] raw[i])@, show_hidden) ==> set.contains(
                raw[i],
            ),
{
    broadcast use vstd::seq_lib::group_to_multiset_ensures;

    let keep = |e: DisplayablePathBuf| is_offered(e@, show_hidden);
    let before = offered(raw, show_hidden);
    assert(set.to_multiset().len() == before.to_multiset().len());
    assert forall|k: int| 0 <= k < set.len() implies raw.contains(#[trigger] set[k])
        && is_offered(set[k]@, show_hidden) by {
        assert(set.contains(set[k]));
        assert(before.to_multiset().count(set[k]) > 0);
        assert(before.contains(set[k]));
        raw.lemma_filter_contains_rev(keep, set[k]);
        assert(keep(set[k]));
    }
    assert forall|i: int|
        0 <= i < raw.len() && is_offered((#[trigger] raw[i])@, show_hidden) implies set.contains(
        raw[i],
    ) by {
        assert(keep(raw[i]));
        raw.lemma_filter_contains(keep, i);
        assert(before.contains(raw[i]));
        assert(set.to_multiset().count(raw[i]) > 0);
    }
}

} // verus!
