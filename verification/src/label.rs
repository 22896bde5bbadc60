//! Two-letter codes: the finite sequence `aa`, `ab`, ..., `zz`.

use vstd::prelude::*;

verus! {

/// How many codes there are: one for each pair of lowercase letters.
pub const LABEL_COUNT: usize = 676;

/// The `k`-th lowercase letter, counting from `a` at 0.
pub open spec fn letter(k: int) -> char {
    (97 + k) as char
}

/// The code at position `i`: the letter of `i / 26`, then the letter of `i % 26`.
pub open spec fn label_at(i: int) -> Seq<char> {
    seq![letter(i / 26), letter(i % 26)]
}

/// The position whose code is `s`, where `s` is a code at all.
pub open spec fn label_index(s: Seq<char>) -> Option<int> {
    if s.len() == 2 && 97 <= s[0] as int <= 122 && 97 <= s[1] as int <= 122 {
        Some((s[0] as int - 97) * 26 + (s[1] as int - 97))
    } else {
        None
    }
}

/// Whether one of the first `n` codes starts with `prefix`.
pub open spec fn some_label_starts_with(n: int, prefix: Seq<char>) -> bool {
    exists|k: int| 0 <= k < n && k < 676 && prefix.is_prefix_of(#[trigger] label_at(k))
}

/// The `k`-th lowercase letter.
pub(crate) fn nth_letter(k: u8) -> (c: char)
    requires
        k < 26,
    ensures
        c == letter(k as int),
{
    (97u8 + k) as char
}

/// The code at position `i`, or nothing once the 676 codes are used up.
pub fn label(i: usize) -> (r: Option<String>)
    ensures
        match r {
            Some(s) => i < 676 && s@ == label_at(i as int),
            None => i >= 676,
        },
{
    if i >= LABEL_COUNT {
        return None;
    }
    let first: char = nth_letter((i / 26) as u8);
    let second: char = nth_letter((i % 26) as u8);
    let mut s = String::new();
    s.push(first);
    s.push(second);
    assert(s@ =~= label_at(i as int));
    Some(s)
}

/// Hands out the codes in order, each once.
pub struct Labeler(u16);

impl Labeler {
    /// The last position that has a code.
    pub const TAG_INDEX_LIMIT: u16 = 675;

    /// The position of the code that `next` hands out next.
    pub closed spec fn position(&self) -> int {
        self.0 as int
    }

    #[verifier::type_invariant]
    spec fn in_range(&self) -> bool {
        self.0 <= 676
    }

    /// A generator that starts at `aa`.
    pub fn new() -> (r: Self)
        ensures
            r.position() == 0,
    {
        Self(0)
    }

    /// The next code, or nothing after `zz`.
    pub fn next(&mut self) -> (r: Option<String>)
        ensures
            match r {
                Some(s) => old(self).position() < 676 && s@ == label_at(old(self).position())
                    && final(self).position() == old(self).position() + 1,
                None => old(self).position() >= 676 && final(self).position() == old(
                    self,
                ).position(),
            },
    {
        proof {
            use_type_invariant(&*self);
        }
        if self.0 > Self::TAG_INDEX_LIMIT {
            return None;
        }
        let r = label(self.0 as usize);
        self.0 = self.0 + 1;
        r
    }
}

/// Two different positions never share a code.
pub proof fn lemma_labels_distinct(i: int, j: int)
    requires
        0 <= i < 676,
        0 <= j < 676,
        i != j,
    ensures
        label_at(i) != label_at(j),
{
    assert(label_at(i)[0] == letter(i / 26));
    assert(label_at(i)[1] == letter(i % 26));
    assert(label_at(j)[0] == letter(j / 26));
    assert(label_at(j)[1] == letter(j % 26));
    if label_at(i) == label_at(j) {
        assert(i / 26 == j / 26);
        assert(i % 26 == j % 26);
    }
}

/// Reading a code back gives the position it was made for.
pub proof fn lemma_label_index_inverts(i: int)
    requires
        0 <= i < 676,
    ensures
        label_index(label_at(i)) == Some(i),
{
    assert(label_at(i)[0] == letter(i / 26));
    assert(label_at(i)[1] == letter(i % 26));
}

/// Whatever has a position is the code of that position.
pub proof fn lemma_label_index_sound(s: Seq<char>)
    requires
        label_index(s) is Some,
    ensures
        0 <= label_index(s).unwrap() < 676,
        label_at(label_index(s).unwrap()) == s,
{
    let i = label_index(s).unwrap();
    assert(label_at(i) =~= s);
}

} // verus!
