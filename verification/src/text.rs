//! The string pool: a byte region of NUL-terminated UTF-8 strings,
//! addressed by the offset of their first byte.
//!
//! Reading scans the pool, splitting on NUL bytes and validating each
//! entry as strict UTF-8 (a malformed entry is fatal). Writing keeps a
//! deduplication table from string content to the offset it was first
//! written at.

use vstd::prelude::*;
use vstd::seq_lib::*;

verus! {

/// Whether `b` is a UTF-8 continuation byte.
pub open spec fn is_utf8_cont(b: u8) -> bool {
    0x80 <= b && b < 0xC0
}

/// Strict UTF-8 validity of a byte sequence: the shortest-form encoding
/// rules, with surrogates and values above `0x10FFFF` rejected.
pub open spec fn is_utf8(s: Seq<u8>) -> bool
    decreases s.len(),
{
    if s.len() == 0 {
        true
    } else {
        let b0 = s[0];
        if b0 < 0x80 {
            is_utf8(s.skip(1))
        } else if b0 < 0xC2 {
            false
        } else if b0 < 0xE0 {
            s.len() >= 2 && is_utf8_cont(s[1]) && is_utf8(s.skip(2))
        } else if b0 == 0xE0 {
            s.len() >= 3 && 0xA0 <= s[1] && s[1] < 0xC0 && is_utf8_cont(s[2]) && is_utf8(
                s.skip(3),
            )
        } else if b0 == 0xED {
            s.len() >= 3 && 0x80 <= s[1] && s[1] < 0xA0 && is_utf8_cont(s[2]) && is_utf8(
                s.skip(3),
            )
        } else if b0 < 0xF0 {
            s.len() >= 3 && is_utf8_cont(s[1]) && is_utf8_cont(s[2]) && is_utf8(s.skip(3))
        } else if b0 == 0xF0 {
            s.len() >= 4 && 0x90 <= s[1] && s[1] < 0xC0 && is_utf8_cont(s[2]) && is_utf8_cont(
                s[3],
            ) && is_utf8(s.skip(4))
        } else if b0 < 0xF4 {
            s.len() >= 4 && is_utf8_cont(s[1]) && is_utf8_cont(s[2]) && is_utf8_cont(s[3])
                && is_utf8(s.skip(4))
        } else if b0 == 0xF4 {
            s.len() >= 4 && 0x80 <= s[1] && s[1] < 0x90 && is_utf8_cont(s[2]) && is_utf8_cont(
                s[3],
            ) && is_utf8(s.skip(4))
        } else {
            false
        }
    }
}

/// Whether a byte sequence contains no NUL byte, so it can stand as one
/// string-pool entry.
pub open spec fn has_no_nul(s: Seq<u8>) -> bool {
    forall|j: int| 0 <= j < s.len() ==> s[j] != 0
}

/// Checks strict UTF-8 validity of a buffer.
pub fn check_utf8(s: &[u8]) -> (r: bool)
    ensures
        r == is_utf8(s@),
{
    let n = s.len();
    let mut i: usize = 0;
    proof {
        assert(s@.skip(0) =~= s@);
    }
    while i < n
        invariant
            i <= n,
            n == s@.len(),
            is_utf8(s@) == is_utf8(s@.skip(i as int)),
        decreases n - i,
    {
        let ghost rest = s@.skip(i as int);
        proof {
            assert(rest[0] == s@[i as int]);
        }
        let b0 = s[i];
        let width: usize;
        if b0 < 0x80 {
            width = 1;
        } else if b0 < 0xC2 {
            return false;
        } else if b0 < 0xE0 {
            if n - i < 2 || !(0x80 <= s[i + 1] && s[i + 1] < 0xC0) {
                return false;
            }
            width = 2;
        } else if b0 == 0xE0 {
            if n - i < 3 || !(0xA0 <= s[i + 1] && s[i + 1] < 0xC0)
                || !(0x80 <= s[i + 2] && s[i + 2] < 0xC0) {
                return false;
            }
            width = 3;
        } else if b0 == 0xED {
            if n - i < 3 || !(0x80 <= s[i + 1] && s[i + 1] < 0xA0)
                || !(0x80 <= s[i + 2] && s[i + 2] < 0xC0) {
                return false;
            }
            width = 3;
        } else if b0 < 0xF0 {
            if n - i < 3 || !(0x80 <= s[i + 1] && s[i + 1] < 0xC0)
                || !(0x80 <= s[i + 2] && s[i + 2] < 0xC0) {
                return false;
            }
            width = 3;
        } else if b0 == 0xF0 {
            if n - i < 4 || !(0x90 <= s[i + 1] && s[i + 1] < 0xC0)
                || !(0x80 <= s[i + 2] && s[i + 2] < 0xC0)
                || !(0x80 <= s[i + 3] && s[i + 3] < 0xC0) {
                return false;
            }
            width = 4;
        } else if b0 < 0xF4 {
            if n - i < 4 || !(0x80 <= s[i + 1] && s[i + 1] < 0xC0)
                || !(0x80 <= s[i + 2] && s[i + 2] < 0xC0)
                || !(0x80 <= s[i + 3] && s[i + 3] < 0xC0) {
                return false;
            }
            width = 4;
        } else if b0 == 0xF4 {
            if n - i < 4 || !(0x80 <= s[i + 1] && s[i + 1] < 0x90)
                || !(0x80 <= s[i + 2] && s[i + 2] < 0xC0)
                || !(0x80 <= s[i + 3] && s[i + 3] < 0xC0) {
                return false;
            }
            width = 4;
        } else {
            return false;
        }
        proof {
            assert(1 <= width <= rest.len());
            assert(forall|j: int| 1 <= j < width ==> rest[j] == s@[i + j]);
            assert_seqs_equal!(rest.skip(width as int) == s@.skip(i + width as int));
            assert(is_utf8(rest) == is_utf8(rest.skip(width as int)));
        }
        i = i + width;
    }
    proof {
        assert(s@.skip(n as int) =~= Seq::<u8>::empty());
    }
    true
}

/// The entries cut out of a string pool: scanning from byte `i`, with the
/// current entry having started at byte `start`, each NUL byte closes the
/// entry that began after the previous NUL. Bytes after the last NUL
/// belong to no entry.
pub open spec fn spec_scan_pool(pool: Seq<u8>, i: int, start: int) -> Seq<(u32, Seq<u8>)>
    decreases pool.len() - i,
    when 0 <= start <= i <= pool.len()
{
    if i >= pool.len() {
        Seq::empty()
    } else if pool[i] == 0 {
        seq![((start as u32), pool.subrange(start, i))] + spec_scan_pool(pool, i + 1, i + 1)
    } else {
        spec_scan_pool(pool, i + 1, start)
    }
}

/// The entries of a whole pool.
pub open spec fn spec_pool_entries(pool: Seq<u8>) -> Seq<(u32, Seq<u8>)> {
    spec_scan_pool(pool, 0, 0)
}

/// Whether every entry of the pool is valid UTF-8.
pub open spec fn spec_pool_all_utf8(pool: Seq<u8>) -> bool {
    forall|k: int|
        0 <= k < spec_pool_entries(pool).len() ==> is_utf8(#[trigger] spec_pool_entries(pool)[k].1)
}

/// The content at `key` among `entries`: the first entry with that
/// offset, if any.
pub open spec fn spec_lookup(entries: Seq<(u32, Seq<u8>)>, key: u32) -> Option<Seq<u8>>
    decreases entries.len(),
{
    if entries.len() == 0 {
        None
    } else if entries[0].0 == key {
        Some(entries[0].1)
    } else {
        spec_lookup(entries.skip(1), key)
    }
}

/// If the first `i` entries do not carry `key`, the lookup result is the
/// lookup result among the remaining entries.
pub proof fn lemma_lookup_skip(entries: Seq<(u32, Seq<u8>)>, key: u32, i: int)
    requires
        0 <= i <= entries.len(),
        forall|j: int| 0 <= j < i ==> entries[j].0 != key,
    ensures
        spec_lookup(entries, key) == spec_lookup(entries.skip(i), key),
    decreases i,
{
    if i > 0 {
        assert(entries.skip(1).skip(i - 1) =~= entries.skip(i));
        lemma_lookup_skip(entries.skip(1), key, i - 1);
    } else {
        assert(entries.skip(0) =~= entries);
    }
}

/// The offset-to-content table built from a string pool.
#[derive(Debug)]
pub struct StringTable {
    entries: Vec<(u32, Vec<u8>)>,
}

impl View for StringTable {
    type V = Seq<(u32, Seq<u8>)>;

    closed spec fn view(&self) -> Seq<(u32, Seq<u8>)> {
        self.entries@.map_values(|e: (u32, Vec<u8>)| (e.0, e.1@))
    }
}

impl StringTable {
    /// The content stored at offset `key`, or `None` when no entry starts
    /// there.
    pub fn find(&self, key: u32) -> (r: Option<Vec<u8>>)
        ensures
            match r {
                Some(v) => spec_lookup(self@, key) == Some(v@),
                None => spec_lookup(self@, key) is None,
            },
    {
        let n = self.entries.len();
        let mut i: usize = 0;
        while i < n
            invariant
                i <= n,
                n == self.entries@.len(),
                forall|j: int| 0 <= j < i ==> self@[j].0 != key,
            decreases n - i,
        {
            if self.entries[i].0 == key {
                proof {
                    lemma_lookup_skip(self@, key, i as int);
                    assert(self@.skip(i as int)[0] == self@[i as int]);
                }
                let e = &self.entries[i];
                return Some(crate::bytes::copy_range(e.1.as_slice(), 0, e.1.len()));
            }
            i = i + 1;
        }
        proof {
            lemma_lookup_skip(self@, key, n as int);
            assert(self@.skip(n as int) =~= Seq::<(u32, Seq<u8>)>::empty());
        }
        None
    }

    /// Whether an entry starts at offset `key`.
    pub fn contains_key(&self, key: u32) -> (r: bool)
        ensures
            r == (spec_lookup(self@, key) is Some),
    {
        let found = self.find(key);
        found.is_some()
    }

    /// Splits a string pool into its NUL-terminated entries, validating
    /// each as strict UTF-8. Fails with `StringMalformed` exactly when
    /// some entry is not valid UTF-8.
    pub fn parse(pool: &[u8]) -> (r: Result<StringTable, crate::error::Error>)
        requires
            pool@.len() <= 0xFFFF_FFFF,
        ensures
            r is Ok <==> spec_pool_all_utf8(pool@),
            r matches Ok(t) ==> t@ == spec_pool_entries(pool@),
            r matches Err(e) ==> e@ is StringMalformed,
    {
        let n = pool.len();
        let mut entries: Vec<(u32, Vec<u8>)> = Vec::new();
        let mut i: usize = 0;
        let mut start: usize = 0;
        let ghost whole = spec_pool_entries(pool@);
        while i < n
            invariant
                0 <= start <= i <= n,
                n == pool@.len(),
                n <= 0xFFFF_FFFF,
                whole == spec_pool_entries(pool@),
                whole == entries@.map_values(|e: (u32, Vec<u8>)| (e.0, e.1@)) + spec_scan_pool(
                    pool@,
                    i as int,
                    start as int,
                ),
                forall|k: int| 0 <= k < entries@.len() ==> is_utf8(#[trigger] entries@[k].1@),
            decreases n - i,
        {
            if pool[i] == 0 {
                let content = crate::bytes::copy_range(pool, start, i - start);
                if !crate::text::check_utf8(content.as_slice()) {
                    proof {
                        let ghost done = entries@.map_values(
                            |e: (u32, Vec<u8>)| (e.0, e.1@),
                        );
                        assert(spec_scan_pool(pool@, i as int, start as int)[0] == (
                            (start as u32),
                            pool@.subrange(start as int, i as int),
                        ));
                        assert(whole[done.len() as int].1 == content@);
                        assert(!spec_pool_all_utf8(pool@));
                    }
                    return Err(crate::error::Error::StringMalformed);
                }
                entries.push((start as u32, content));
                i = i + 1;
                start = i;
                proof {
                    let ghost f = |e: (u32, Vec<u8>)| (e.0, e.1@);
                    assert_seqs_equal!(
                        entries@.map_values(f)
                            == entries@.drop_last().map_values(f).push(f(entries@.last()))
                    );
                    assert_seqs_equal!(
                        whole == entries@.map_values(f)
                            + spec_scan_pool(pool@, i as int, start as int)
                    );
                }
            } else {
                proof {
                    assert(spec_scan_pool(pool@, i as int, start as int)
                        =~= spec_scan_pool(pool@, i + 1, start as int));
                }
                i = i + 1;
            }
        }
        proof {
            let ghost f = |e: (u32, Vec<u8>)| (e.0, e.1@);
            assert(spec_scan_pool(pool@, n as int, start as int) =~= Seq::<(u32, Seq<u8>)>::empty());
            assert_seqs_equal!(whole == entries@.map_values(f));
        }
        Ok(StringTable { entries })
    }
}

/// The content at the head of `entries` whose bytes equal `s`: the offset
/// the string was first written at, if it was.
pub open spec fn spec_dedup_find(entries: Seq<(Seq<u8>, u32)>, s: Seq<u8>) -> Option<u32>
    decreases entries.len(),
{
    if entries.len() == 0 {
        None
    } else if entries[0].0 == s {
        Some(entries[0].1)
    } else {
        spec_dedup_find(entries.skip(1), s)
    }
}

/// If the first `i` entries do not hold `s`, the find result is the find
/// result among the remaining entries.
pub proof fn lemma_dedup_find_skip(entries: Seq<(Seq<u8>, u32)>, s: Seq<u8>, i: int)
    requires
        0 <= i <= entries.len(),
        forall|j: int| 0 <= j < i ==> entries[j].0 != s,
    ensures
        spec_dedup_find(entries, s) == spec_dedup_find(entries.skip(i), s),
    decreases i,
{
    if i > 0 {
        assert(entries.skip(1).skip(i - 1) =~= entries.skip(i));
        lemma_dedup_find_skip(entries.skip(1), s, i - 1);
    } else {
        assert(entries.skip(0) =~= entries);
    }
}

/// The writer's deduplication table from string content to the pool
/// offset it was first written at.
#[derive(Debug)]
pub struct StringDedup {
    entries: Vec<(Vec<u8>, u32)>,
}

impl View for StringDedup {
    type V = Seq<(Seq<u8>, u32)>;

    closed spec fn view(&self) -> Seq<(Seq<u8>, u32)> {
        self.entries@.map_values(|e: (Vec<u8>, u32)| (e.0@, e.1))
    }
}

impl StringDedup {
    /// An empty table.
    pub fn new() -> (r: StringDedup)
        ensures
            r@ == Seq::<(Seq<u8>, u32)>::empty(),
    {
        let r = StringDedup { entries: Vec::new() };
        proof {
            assert_seqs_equal!(r@ == Seq::<(Seq<u8>, u32)>::empty());
        }
        r
    }

    /// The offset recorded for content `s`, if there is one.
    pub fn find(&self, s: &[u8]) -> (r: Option<u32>)
        ensures
            r == spec_dedup_find(self@, s@),
    {
        let n = self.entries.len();
        let mut i: usize = 0;
        while i < n
            invariant
                i <= n,
                n == self.entries@.len(),
                forall|j: int| 0 <= j < i ==> self@[j].0 != s@,
            decreases n - i,
        {
            if crate::bytes::bytes_eq(self.entries[i].0.as_slice(), s) {
                proof {
                    lemma_dedup_find_skip(self@, s@, i as int);
                    assert(self@.skip(i as int)[0] == self@[i as int]);
                }
                return Some(self.entries[i].1);
            }
            i = i + 1;
        }
        proof {
            lemma_dedup_find_skip(self@, s@, n as int);
            assert(self@.skip(n as int) =~= Seq::<(Seq<u8>, u32)>::empty());
        }
        None
    }

    /// Records that content `s` was written at offset `off`.
    pub fn add(&mut self, s: Vec<u8>, off: u32)
        ensures
            final(self)@ == old(self)@.push((s@, off)),
    {
        self.entries.push((s, off));
        proof {
            let ghost f = |e: (Vec<u8>, u32)| (e.0@, e.1);
            assert_seqs_equal!(
                self.entries@.map_values(f)
                    == self.entries@.drop_last().map_values(f).push(f(self.entries@.last()))
            );
        }
    }
}

/// The pool bytes a list of entries lays out: each entry's content,
/// NUL-terminated, in order.
pub open spec fn spec_entries_pool(entries: Seq<(Seq<u8>, u32)>) -> Seq<u8>
    decreases entries.len(),
{
    if entries.len() == 0 {
        Seq::empty()
    } else {
        entries[0].0 + seq![0u8] + spec_entries_pool(entries.skip(1))
    }
}

/// Whether each entry's offset is the position its content starts at
/// when the entries are laid out from `base`.
pub open spec fn spec_offsets_from(entries: Seq<(Seq<u8>, u32)>, base: int) -> bool
    decreases entries.len(),
{
    if entries.len() == 0 {
        true
    } else {
        entries[0].1 == base && spec_offsets_from(
            entries.skip(1),
            base + entries[0].0.len() + 1,
        )
    }
}

/// Whether no entry's content holds a NUL byte.
pub open spec fn spec_entries_no_nul(entries: Seq<(Seq<u8>, u32)>) -> bool {
    forall|k: int| 0 <= k < entries.len() ==> has_no_nul(#[trigger] entries[k].0)
}

/// Whether every entry's content is valid UTF-8.
pub open spec fn spec_entries_utf8(entries: Seq<(Seq<u8>, u32)>) -> bool {
    forall|k: int| 0 <= k < entries.len() ==> is_utf8(#[trigger] entries[k].0)
}

/// The writer's (content, offset) entries as the (offset, content)
/// pairs the pool scan produces.
pub open spec fn spec_entries_swapped(entries: Seq<(Seq<u8>, u32)>) -> Seq<(u32, Seq<u8>)> {
    entries.map_values(|e: (Seq<u8>, u32)| (e.1, e.0))
}

/// Appending an entry to the layout appends its NUL-terminated content
/// to the pool bytes.
pub proof fn lemma_entries_pool_push(entries: Seq<(Seq<u8>, u32)>, e: (Seq<u8>, u32))
    ensures
        spec_entries_pool(entries.push(e)) == spec_entries_pool(entries) + e.0 + seq![0u8],
    decreases entries.len(),
{
    assert(entries.push(e)[0] == if entries.len() == 0 { e } else { entries[0] });
    if entries.len() == 0 {
        assert(entries.push(e).skip(1) =~= Seq::<(Seq<u8>, u32)>::empty());
        assert(spec_entries_pool(entries) =~= Seq::<u8>::empty());
        assert(spec_entries_pool(entries.push(e)) == e.0 + seq![0u8]
            + spec_entries_pool(entries.push(e).skip(1)));
        assert(spec_entries_pool(entries.push(e)) =~= spec_entries_pool(entries) + e.0
            + seq![0u8]);
    } else {
        assert(entries.push(e).skip(1) =~= entries.skip(1).push(e));
        lemma_entries_pool_push(entries.skip(1), e);
        assert(spec_entries_pool(entries.push(e)) =~= spec_entries_pool(entries) + e.0
            + seq![0u8]);
    }
}

/// An entry placed right after the laid-out entries keeps the offsets
/// sound.
pub proof fn lemma_offsets_push(entries: Seq<(Seq<u8>, u32)>, base: int, e: (Seq<u8>, u32))
    requires
        spec_offsets_from(entries, base),
        e.1 == base + spec_entries_pool(entries).len(),
    ensures
        spec_offsets_from(entries.push(e), base),
    decreases entries.len(),
{
    assert(entries.push(e)[0] == if entries.len() == 0 { e } else { entries[0] });
    if entries.len() == 0 {
        assert(spec_entries_pool(entries) =~= Seq::<u8>::empty());
        assert(e.1 == base);
        assert(entries.push(e).skip(1) =~= Seq::<(Seq<u8>, u32)>::empty());
        assert(spec_offsets_from(entries.push(e).skip(1), base + e.0.len() + 1));
        assert(spec_offsets_from(entries.push(e), base));
    } else {
        assert(entries.push(e).skip(1) =~= entries.skip(1).push(e));
        assert(spec_entries_pool(entries) == entries[0].0 + seq![0u8] + spec_entries_pool(
            entries.skip(1),
        ));
        lemma_offsets_push(entries.skip(1), base + entries[0].0.len() + 1, e);
        assert(spec_offsets_from(entries.push(e).skip(1), base + entries[0].0.len() + 1));
        assert(spec_offsets_from(entries.push(e), base));
    }
}

/// Every entry of a laid-out list sits at or after the base, and later
/// entries sit strictly after the first.
pub proof fn lemma_offsets_lower_bound(entries: Seq<(Seq<u8>, u32)>, base: int, k: int)
    requires
        spec_offsets_from(entries, base),
        0 <= k < entries.len(),
    ensures
        entries[k].1 >= base,
        k > 0 ==> entries[k].1 > base,
    decreases k,
{
    if k > 0 {
        lemma_offsets_lower_bound(entries.skip(1), base + entries[0].0.len() + 1, k - 1);
        assert(entries.skip(1)[k - 1] == entries[k]);
    }
}

/// In a laid-out list the offsets are distinct, so looking an entry's
/// offset up among the scanned pairs finds exactly that entry's
/// content.
pub proof fn lemma_lookup_laid_out(entries: Seq<(Seq<u8>, u32)>, base: int, k: int)
    requires
        spec_offsets_from(entries, base),
        0 <= k < entries.len(),
    ensures
        spec_lookup(spec_entries_swapped(entries), entries[k].1) == Some(entries[k].0),
    decreases k,
{
    let swapped = spec_entries_swapped(entries);
    assert(swapped[0] == (entries[0].1, entries[0].0));
    if k == 0 {
        assert(swapped.len() > 0);
    } else {
        lemma_offsets_lower_bound(entries, base, k);
        assert(entries[k].1 != entries[0].1);
        assert(swapped.skip(1) =~= spec_entries_swapped(entries.skip(1)));
        assert(entries.skip(1)[k - 1] == entries[k]);
        lemma_lookup_laid_out(entries.skip(1), base + entries[0].0.len() + 1, k - 1);
    }
}

/// Scanning over a stretch of the pool that holds no NUL byte does not
/// change the outcome: the scan just walks forward.
pub proof fn lemma_scan_skips_content(pool: Seq<u8>, i: int, start: int, j: int)
    requires
        0 <= start <= i <= j <= pool.len(),
        forall|m: int| i <= m < j ==> pool[m] != 0,
    ensures
        spec_scan_pool(pool, i, start) == spec_scan_pool(pool, j, start),
    decreases j - i,
{
    if i < j {
        lemma_scan_skips_content(pool, i + 1, start, j);
    }
}

/// Scanning a pool that is a laid-out list of NUL-free entries, from
/// the position the layout starts at, yields exactly those entries as
/// (offset, content) pairs.
pub proof fn lemma_scan_pool_of_entries(pool: Seq<u8>, entries: Seq<(Seq<u8>, u32)>, i: int)
    requires
        0 <= i <= pool.len(),
        pool.len() <= 0xFFFF_FFFF,
        pool.subrange(i, pool.len() as int) == spec_entries_pool(entries),
        spec_offsets_from(entries, i),
        spec_entries_no_nul(entries),
    ensures
        spec_scan_pool(pool, i, i) == spec_entries_swapped(entries),
    decreases entries.len(),
{
    if entries.len() == 0 {
        assert(pool.subrange(i, pool.len() as int).len() == 0);
        assert(spec_entries_swapped(entries) =~= Seq::<(u32, Seq<u8>)>::empty());
    } else {
        let s0 = entries[0].0;
        let tail = pool.subrange(i, pool.len() as int);
        assert(tail.len() == spec_entries_pool(entries).len());
        let nul_at = i + s0.len();
        assert forall|m: int| i <= m < nul_at implies pool[m] != 0 by {
            assert(tail[m - i] == pool[m]);
            assert(spec_entries_pool(entries)[m - i] == s0[m - i]);
            assert(has_no_nul(entries[0].0));
        }
        assert(pool[nul_at] == 0) by {
            assert(tail[s0.len() as int] == pool[nul_at]);
            assert(spec_entries_pool(entries)[s0.len() as int] == 0);
        }
        lemma_scan_skips_content(pool, i, i, nul_at);
        assert(spec_scan_pool(pool, nul_at, i) == seq![
            ((i as u32), pool.subrange(i, nul_at)),
        ] + spec_scan_pool(pool, nul_at + 1, nul_at + 1));
        assert(pool.subrange(i, nul_at) =~= s0) by {
            assert(forall|m: int|
                0 <= m < s0.len() ==> pool.subrange(i, nul_at)[m] == tail[m]);
            assert(forall|m: int|
                0 <= m < s0.len() ==> #[trigger] spec_entries_pool(entries)[m] == s0[m]);
        }
        assert(pool.subrange(nul_at + 1, pool.len() as int) =~= spec_entries_pool(
            entries.skip(1),
        )) by {
            assert(forall|m: int|
                nul_at + 1 <= m < pool.len() ==> pool[m] == tail[m - i]);
            assert(forall|m: int|
                0 <= m < spec_entries_pool(entries.skip(1)).len()
                    ==> #[trigger] spec_entries_pool(entries)[s0.len() + 1 + m]
                    == spec_entries_pool(entries.skip(1))[m]);
        }
        assert(spec_entries_no_nul(entries.skip(1))) by {
            assert(forall|k: int|
                0 <= k < entries.skip(1).len() ==> entries.skip(1)[k] == entries[k + 1]);
        }
        lemma_scan_pool_of_entries(pool, entries.skip(1), nul_at + 1);
        assert(spec_entries_swapped(entries).skip(1) =~= spec_entries_swapped(
            entries.skip(1),
        ));
        assert(spec_scan_pool(pool, i, i) =~= spec_entries_swapped(entries));
    }
}

} // verus!
