use vstd::prelude::*;
use crate::text::{char_string, join3};

verus! {

/// A syllable's initial and final, e.g. ("m", "ao").
pub type PinyinComponents = (String, String);

/// One row of the phonetic table.
#[derive(Clone, Debug)]
pub struct PinyinEntry {
    pub ch: char,
    pub initial: String,
    pub fin: String,
}

/// Maps a character to the initial and final of its most common reading.
/// Each character has at most one row.
#[derive(Clone, Debug)]
pub struct PinyinTable {
    pub entries: Vec<PinyinEntry>,
}

impl PinyinTable {
    pub open spec fn wf(&self) -> bool {
        forall|i: int, j: int|
            0 <= i < j < self.entries@.len() ==> #[trigger] self.entries@[i].ch
                != #[trigger] self.entries@[j].ch
    }

    pub open spec fn has(&self, c: char) -> bool {
        exists|i: int| 0 <= i < self.entries@.len() && #[trigger] self.entries@[i].ch == c
    }

    pub open spec fn row_of(&self, c: char) -> int {
        choose|i: int| 0 <= i < self.entries@.len() && #[trigger] self.entries@[i].ch == c
    }

    pub open spec fn initial_of(&self, c: char) -> Seq<char> {
        self.entries@[self.row_of(c)].initial@
    }

    pub open spec fn final_of(&self, c: char) -> Seq<char> {
        self.entries@[self.row_of(c)].fin@
    }

    /// The table as a map from a character to its initial and final.
    pub open spec fn comps(&self) -> Map<char, (Seq<char>, Seq<char>)> {
        Map::new(|c: char| self.has(c), |c: char| (self.initial_of(c), self.final_of(c)))
    }

    /// An empty table.
    pub fn new() -> (t: Self)
        ensures
            t.wf(),
            forall|c: char| !t.has(c),
    {
        PinyinTable { entries: Vec::new() }
    }

    /// The row of `c`, if it has one.
    pub fn find(&self, c: char) -> (r: Option<usize>)
        requires
            self.wf(),
        ensures
            r.is_none() <==> !self.has(c),
            r matches Some(i) ==> i < self.entries@.len() && self.entries@[i as int].ch == c
                && i == self.row_of(c),
    {
        let mut i: usize = 0;
        while i < self.entries.len()
            invariant
                self.wf(),
                i <= self.entries@.len(),
                forall|j: int| 0 <= j < i ==> #[trigger] self.entries@[j].ch != c,
            decreases self.entries@.len() - i,
        {
            if self.entries[i].ch == c {
                assert(self.has(c));
                let ghost k = self.row_of(c);
                assert(k == i as int);
                return Some(i);
            }
            i += 1;
        }
        None
    }

    /// Whether `c` has a row.
    pub fn contains(&self, c: char) -> (r: bool)
        requires
            self.wf(),
        ensures
            r == self.has(c),
    {
        self.find(c).is_some()
    }

    /// Gives `c` the components `initial` and `fin`, replacing its old ones.
    pub fn insert(&mut self, c: char, initial: String, fin: String)
        requires
            old(self).wf(),
        ensures
            final(self).wf(),
            final(self).comps() == old(self).comps().insert(c, (initial@, fin@)),
    {
        let ghost before = *self;
        match self.find(c) {
            Some(i) => {
                self.entries.set(i, PinyinEntry { ch: c, initial, fin });
                assert(self.entries@[i as int].ch == c);
            },
            None => {
                self.entries.push(PinyinEntry { ch: c, initial, fin });
                assert(self.entries@[before.entries@.len() as int].ch == c);
            },
        }
        assert(self.wf());
        assert forall|d: char| d != c implies #[trigger] self.has(d) == before.has(d) by {
            if before.has(d) {
                let k = before.row_of(d);
                assert(self.entries@[k].ch == d);
            }
            if self.has(d) {
                let k = self.row_of(d);
                assert(before.entries@[k].ch == d);
            }
        }
        assert forall|d: char| d != c && before.has(d) implies #[trigger] self.initial_of(d)
            == before.initial_of(d) && self.final_of(d) == before.final_of(d) by {
            let k = before.row_of(d);
            assert(self.entries@[k].ch == d);
            assert(self.has(d));
            let k2 = self.row_of(d);
            assert(self.entries@[k2].ch == d);
            assert(k == k2);
        }
        assert(self.has(c));
        assert(self.comps() =~= before.comps().insert(c, (initial@, fin@)));
    }
}

/// The vowels that end an initial; `v` stands for ü.
pub open spec fn is_vowel(c: char) -> bool {
    c == 'a' || c == 'e' || c == 'i' || c == 'o' || c == 'u' || c == 'v'
}

fn vowel(c: char) -> (r: bool)
    ensures
        r == is_vowel(c),
{
    c == 'a' || c == 'e' || c == 'i' || c == 'o' || c == 'u' || c == 'v'
}

/// The position of the first vowel of `s` (its length when there is none).
pub open spec fn first_vowel(s: Seq<char>) -> int
    decreases s.len(),
{
    if s.len() == 0 {
        0
    } else if is_vowel(s[0]) {
        0
    } else {
        1 + first_vowel(s.drop_first())
    }
}

proof fn lemma_first_vowel(s: Seq<char>)
    ensures
        0 <= first_vowel(s) <= s.len(),
        forall|j: int| 0 <= j < first_vowel(s) ==> !is_vowel(#[trigger] s[j]),
        first_vowel(s) < s.len() ==> is_vowel(s[first_vowel(s)]),
    decreases s.len(),
{
    if s.len() > 0 && !is_vowel(s[0]) {
        lemma_first_vowel(s.drop_first());
        assert forall|j: int| 0 <= j < first_vowel(s) implies !is_vowel(#[trigger] s[j]) by {
            if j > 0 {
                assert(s[j] == s.drop_first()[j - 1]);
            }
        }
    }
}

/// Splits a syllable into its initial, the longest prefix without a vowel, and
/// its final, the rest. A syllable without a vowel (`hm`, `ng`) has no split.
pub fn split_pinyin(py: &str) -> (r: Option<PinyinComponents>)
    ensures
        first_vowel(py@) == py@.len() <==> r.is_none(),
        r matches Some(p) ==> p.0@ == py@.subrange(0, first_vowel(py@)) && p.1@ == py@.subrange(
            first_vowel(py@),
            py@.len() as int,
        ),
{
    proof {
        lemma_first_vowel(py@);
    }
    let n = py.unicode_len();
    let mut k: usize = 0;
    while k < n && !vowel(py.get_char(k))
        invariant
            n == py@.len(),
            k <= n,
            forall|j: int| 0 <= j < k ==> !is_vowel(#[trigger] py@[j]),
        decreases n - k,
    {
        k += 1;
    }
    proof {
        let f = first_vowel(py@);
        if f < k {
            assert(!is_vowel(py@[f]));
        }
        if (k as int) < f {
            assert(is_vowel(py@[k as int]));
        }
    }
    if k == n {
        return None;
    }
    let init = String::from_str(py.substring_char(0, k));
    let fin = String::from_str(py.substring_char(k, n));
    Some((init, fin))
}

/// The strings of `v`, as a set of character sequences.
pub open spec fn str_set(v: Seq<String>) -> Set<Seq<char>> {
    Set::new(|x: Seq<char>| exists|i: int| 0 <= i < v.len() && #[trigger] v[i]@ == x)
}

/// No string occurs twice in `v`.
pub open spec fn distinct_strs(v: Seq<String>) -> bool {
    forall|i: int, j: int| 0 <= i < j < v.len() ==> #[trigger] v[i]@ != #[trigger] v[j]@
}

/// Whether `v` holds a string equal to `s`.
pub fn contains_str(v: &Vec<String>, s: &String) -> (r: bool)
    ensures
        r == str_set(v@).contains(s@),
{
    let mut i: usize = 0;
    while i < v.len()
        invariant
            i <= v@.len(),
            forall|j: int| 0 <= j < i ==> #[trigger] v@[j]@ != s@,
        decreases v@.len() - i,
    {
        if v[i] == *s {
            assert(v@[i as int]@ == s@);
            return true;
        }
        i += 1;
    }
    false
}

/// Adds `s` to `v` unless an equal string is there already.
pub fn add_str(v: &mut Vec<String>, s: String)
    requires
        distinct_strs(old(v)@),
    ensures
        distinct_strs(final(v)@),
        str_set(final(v)@) == str_set(old(v)@).insert(s@),
        old(v)@.len() <= final(v)@.len(),
        forall|i: int| 0 <= i < old(v)@.len() ==> #[trigger] final(v)@[i] == old(v)@[i],
{
    let ghost before = v@;
    if !contains_str(v, &s) {
        v.push(s);
        assert forall|x: Seq<char>| str_set(v@).contains(x) == str_set(before).insert(
            s@,
        ).contains(x) by {
            if str_set(v@).contains(x) {
                let i = choose|i: int| 0 <= i < v@.len() && #[trigger] v@[i]@ == x;
                if i < before.len() {
                    assert(before[i]@ == x);
                }
            }
            if str_set(before).contains(x) {
                let i = choose|i: int| 0 <= i < before.len() && #[trigger] before[i]@ == x;
                assert(v@[i]@ == x);
            }
            if x == s@ {
                assert(v@[before.len() as int]@ == x);
            }
        }
    } else {
        assert forall|x: Seq<char>| str_set(v@).contains(x) == str_set(before).insert(
            s@,
        ).contains(x) by {}
    }
    assert(str_set(v@) =~= str_set(before).insert(s@));
}

/// Adds each string of `src` to `dst`.
pub fn add_all(dst: &mut Vec<String>, src: &Vec<String>)
    requires
        distinct_strs(old(dst)@),
    ensures
        distinct_strs(final(dst)@),
        str_set(final(dst)@) == str_set(old(dst)@).union(str_set(src@)),
{
    let ghost before = dst@;
    let mut i: usize = 0;
    while i < src.len()
        invariant
            i <= src@.len(),
            distinct_strs(dst@),
            str_set(dst@) == str_set(before).union(str_set(src@.subrange(0, i as int))),
        decreases src@.len() - i,
    {
        let ghost mid = dst@;
        add_str(dst, src[i].clone());
        proof {
            assert(str_set(src@.subrange(0, i + 1)) =~= str_set(src@.subrange(0, i as int)).insert(
                src@[i as int]@,
            )) by {
                assert forall|x: Seq<char>| #[trigger] str_set(src@.subrange(0, i + 1)).contains(x)
                    == str_set(src@.subrange(0, i as int)).insert(src@[i as int]@).contains(x) by {
                    if str_set(src@.subrange(0, i + 1)).contains(x) {
                        let k = choose|k: int|
                            0 <= k < i + 1 && #[trigger] src@.subrange(0, i + 1)[k]@ == x;
                        if k < i {
                            assert(src@.subrange(0, i as int)[k]@ == x);
                        }
                    }
                    if str_set(src@.subrange(0, i as int)).contains(x) {
                        let k = choose|k: int|
                            0 <= k < i && #[trigger] src@.subrange(0, i as int)[k]@ == x;
                        assert(src@.subrange(0, i + 1)[k]@ == x);
                    }
                    if x == src@[i as int]@ {
                        assert(src@.subrange(0, i + 1)[i as int]@ == x);
                    }
                }
            }
            assert(str_set(dst@) =~= str_set(before).union(str_set(src@.subrange(0, i + 1))));
        }
        i += 1;
    }
    assert(src@.subrange(0, src@.len() as int) =~= src@);
}

/// The initials of the characters of `text` that the table knows.
pub open spec fn text_initials(table: PinyinTable, text: Seq<char>) -> Set<Seq<char>> {
    Set::new(
        |x: Seq<char>|
            exists|i: int|
                0 <= i < text.len() && table.has(#[trigger] text[i]) && table.initial_of(text[i])
                    == x,
    )
}

/// The finals of the characters of `text` that the table knows.
pub open spec fn text_finals(table: PinyinTable, text: Seq<char>) -> Set<Seq<char>> {
    Set::new(
        |x: Seq<char>|
            exists|i: int|
                0 <= i < text.len() && table.has(#[trigger] text[i]) && table.final_of(text[i])
                    == x,
    )
}

/// The initials and finals of the characters of `text`; characters that the
/// table does not know add nothing.
pub fn get_text_components(text: &str, table: &PinyinTable) -> (r: (Vec<String>, Vec<String>))
    requires
        table.wf(),
    ensures
        distinct_strs(r.0@),
        distinct_strs(r.1@),
        str_set(r.0@) == text_initials(*table, text@),
        str_set(r.1@) == text_finals(*table, text@),
{
    let n = text.unicode_len();
    let mut inits: Vec<String> = Vec::new();
    let mut finals: Vec<String> = Vec::new();
    let mut i: usize = 0;
    while i < n
        invariant
            n == text@.len(),
            i <= n,
            table.wf(),
            distinct_strs(inits@),
            distinct_strs(finals@),
            str_set(inits@) == text_initials(*table, text@.subrange(0, i as int)),
            str_set(finals@) == text_finals(*table, text@.subrange(0, i as int)),
        decreases n - i,
    {
        let c = text.get_char(i);
        let ghost pre = text@.subrange(0, i as int);
        let ghost post = text@.subrange(0, i + 1);
        match table.find(c) {
            Some(k) => {
                add_str(&mut inits, table.entries[k].initial.clone());
                add_str(&mut finals, table.entries[k].fin.clone());
                proof {
                    assert(str_set(inits@) =~= text_initials(*table, post)) by {
                        assert forall|x: Seq<char>| #[trigger] text_initials(*table, post).contains(x)
                            == text_initials(*table, pre).insert(table.initial_of(c)).contains(x) by {
                            if text_initials(*table, post).contains(x) {
                                let j = choose|j: int| 0 <= j < post.len() && table.has(#[trigger] post[j])
                                    && table.initial_of(post[j]) == x;
                                if j < i {
                                    assert(pre[j] == post[j]);
                                }
                            }
                            if text_initials(*table, pre).contains(x) {
                                let j = choose|j: int| 0 <= j < pre.len() && table.has(#[trigger] pre[j])
                                    && table.initial_of(pre[j]) == x;
                                assert(pre[j] == post[j]);
                            }
                            if x == table.initial_of(c) {
                                assert(post[i as int] == c);
                            }
                        }
                    }
                    assert(str_set(finals@) =~= text_finals(*table, post)) by {
                        assert forall|x: Seq<char>| #[trigger] text_finals(*table, post).contains(x)
                            == text_finals(*table, pre).insert(table.final_of(c)).contains(x) by {
                            if text_finals(*table, post).contains(x) {
                                let j = choose|j: int| 0 <= j < post.len() && table.has(#[trigger] post[j])
                                    && table.final_of(post[j]) == x;
                                if j < i {
                                    assert(pre[j] == post[j]);
                                }
                            }
                            if text_finals(*table, pre).contains(x) {
                                let j = choose|j: int| 0 <= j < pre.len() && table.has(#[trigger] pre[j])
                                    && table.final_of(pre[j]) == x;
                                assert(pre[j] == post[j]);
                            }
                            if x == table.final_of(c) {
                                assert(post[i as int] == c);
                            }
                        }
                    }
                }
            },
            None => {
                proof {
                    assert(text_initials(*table, post) =~= text_initials(*table, pre)) by {
                        assert forall|x: Seq<char>| #[trigger] text_initials(*table, post).contains(x)
                            == text_initials(*table, pre).contains(x) by {
                            if text_initials(*table, post).contains(x) {
                                let j = choose|j: int| 0 <= j < post.len() && table.has(#[trigger] post[j])
                                    && table.initial_of(post[j]) == x;
                                assert(j != i);
                                assert(pre[j] == post[j]);
                            }
                            if text_initials(*table, pre).contains(x) {
                                let j = choose|j: int| 0 <= j < pre.len() && table.has(#[trigger] pre[j])
                                    && table.initial_of(pre[j]) == x;
                                assert(pre[j] == post[j]);
                            }
                        }
                    }
                    assert(text_finals(*table, post) =~= text_finals(*table, pre)) by {
                        assert forall|x: Seq<char>| #[trigger] text_finals(*table, post).contains(x)
                            == text_finals(*table, pre).contains(x) by {
                            if text_finals(*table, post).contains(x) {
                                let j = choose|j: int| 0 <= j < post.len() && table.has(#[trigger] post[j])
                                    && table.final_of(post[j]) == x;
                                assert(j != i);
                                assert(pre[j] == post[j]);
                            }
                            if text_finals(*table, pre).contains(x) {
                                let j = choose|j: int| 0 <= j < pre.len() && table.has(#[trigger] pre[j])
                                    && table.final_of(pre[j]) == x;
                                assert(pre[j] == post[j]);
                            }
                        }
                    }
                }
            },
        }
        i += 1;
    }
    assert(text@.subrange(0, n as int) =~= text@);
    (inits, finals)
}

/// Why a character may not be used, when it may not.
pub enum CharFault {
    /// The table has no reading for it.
    Unknown,
    /// Its initial is banned.
    BannedInitial,
    /// Its final is banned.
    BannedFinal,
}

/// What `validate_char` finds of `c`, checked in this order.
pub open spec fn char_fault(
    c: char,
    table: PinyinTable,
    banned_inits: Set<Seq<char>>,
    banned_finals: Set<Seq<char>>,
) -> Option<CharFault> {
    if !table.has(c) {
        Some(CharFault::Unknown)
    } else if banned_inits.contains(table.initial_of(c)) {
        Some(CharFault::BannedInitial)
    } else if banned_finals.contains(table.final_of(c)) {
        Some(CharFault::BannedFinal)
    } else {
        None
    }
}

/// The message that names the fault of `c`.
pub open spec fn fault_message(c: char, table: PinyinTable, fault: CharFault) -> Seq<char> {
    match fault {
        CharFault::Unknown => "Char '"@ + seq![c] + "' invalid (not in table)."@,
        CharFault::BannedInitial => "Char '"@ + seq![c] + "' uses banned initial '"@
            + table.initial_of(c) + "'."@,
        CharFault::BannedFinal => "Char '"@ + seq![c] + "' uses banned final '"@ + table.final_of(c)
            + "'."@,
    }
}

/// Checks that `c` has a reading whose initial and final are both unbanned.
pub fn validate_char(
    c: char,
    table: &PinyinTable,
    banned_inits: &Vec<String>,
    banned_finals: &Vec<String>,
) -> (r: Result<(), String>)
    requires
        table.wf(),
    ensures
        r is Ok <==> char_fault(c, *table, str_set(banned_inits@), str_set(banned_finals@)).is_none(),
        r matches Err(m) ==> m@ == fault_message(
            c,
            *table,
            char_fault(c, *table, str_set(banned_inits@), str_set(banned_finals@))->Some_0,
        ),
{
    let k = match table.find(c) {
        Some(k) => k,
        None => {
            let cs = char_string(c);
            return Err(join3("Char '", cs.as_str(), "' invalid (not in table)."));
        },
    };
    let e = &table.entries[k];
    if contains_str(banned_inits, &e.initial) {
        let cs = char_string(c);
        let head = join3("Char '", cs.as_str(), "' uses banned initial '");
        return Err(join3(head.as_str(), e.initial.as_str(), "'."));
    }
    if contains_str(banned_finals, &e.fin) {
        let cs = char_string(c);
        let head = join3("Char '", cs.as_str(), "' uses banned final '");
        return Err(join3(head.as_str(), e.fin.as_str(), "'."));
    }
    Ok(())
}

} // verus!
