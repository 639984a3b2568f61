//! The images of one directory, in a chosen order, and the walk through
//! them: forward from the last to the first again, backward from the first
//! to the last.

use vstd::prelude::*;
use crate::order::{bytes_eq, bytes_le, bytes_le_from, lemma_lex_total, lemma_lex_transitive, lex_le};

verus! {

/// The key that the images are ordered by.
#[derive(Clone, Copy, Debug, PartialEq, Eq, Structural)]
pub enum SortDir {
    /// File name, in dictionary order of its bytes.
    Name,
    /// Extension as it is written, in dictionary order of its bytes.
    Ext,
    /// Time of the last change; a file of unknown time comes first.
    Date,
    /// Size in bytes; an unknown size counts as zero.
    Size,
}

/// One image file of the directory.
#[derive(Clone, Debug)]
pub struct ImageEntry {
    /// Path of the file as the directory listing gave it.
    pub path: Vec<u8>,
    /// File name: the last part of the path.
    pub name: Vec<u8>,
    /// Time of the last change in nanoseconds since 1970, where known.
    pub modified: Option<i128>,
    /// Size in bytes, where known.
    pub size: Option<u64>,
    /// Absolute path with all links resolved, where it could be resolved.
    pub canonical: Option<Vec<u8>>,
}

/// One entry of a directory listing, before it is known to be an image.
#[derive(Clone, Debug)]
pub struct DirItem {
    pub entry: ImageEntry,
    /// Whether the entry is a file, not a directory or anything else.
    pub is_file: bool,
}

/// The byte of the dot that separates a name from its extension.
pub const DOT: u8 = 46;

/// Position of the last dot among the first `upto` bytes of `name`, or -1.
pub open spec fn last_dot(name: Seq<u8>, upto: int) -> int
    decreases upto,
{
    if upto <= 0 {
        -1
    } else if name[upto - 1] == DOT {
        upto - 1
    } else {
        last_dot(name, upto - 1)
    }
}

/// Where the extension of a file name starts: behind its last dot. A name
/// without a dot has no extension, nor has one whose only dot is its first
/// byte, nor has the name of the parent directory, two dots.
pub open spec fn extension_start(name: Seq<u8>) -> Option<int> {
    let dot = last_dot(name, name.len() as int);
    if dot <= 0 || name == seq![DOT, DOT] {
        None
    } else {
        Some(dot + 1)
    }
}

/// The extension of a file name, empty where it has none.
pub open spec fn extension(name: Seq<u8>) -> Seq<u8> {
    match extension_start(name) {
        Some(start) => name.skip(start),
        None => Seq::empty(),
    }
}

/// A letter as its small letter, any other byte as it is.
pub open spec fn lower(b: u8) -> u8 {
    if 65 <= b <= 90 {
        (b + 32) as u8
    } else {
        b
    }
}

/// Whether `text`, from `start` on, is `word` but for the case of its
/// letters. `word` is in small letters.
pub open spec fn is_word(text: Seq<u8>, start: int, word: Seq<u8>) -> bool {
    &&& text.len() - start == word.len()
    &&& forall|k: int| 0 <= k < word.len() ==> lower(#[trigger] text[start + k]) == word[k]
}

/// The extensions of the images that can be shown:
/// bmp, jpg, jpeg, png, tif, gif, webp.
pub open spec fn supported_words() -> Seq<Seq<u8>> {
    seq![
        seq![98u8, 109u8, 112u8],
        seq![106u8, 112u8, 103u8],
        seq![106u8, 112u8, 101u8, 103u8],
        seq![112u8, 110u8, 103u8],
        seq![116u8, 105u8, 102u8],
        seq![103u8, 105u8, 102u8],
        seq![119u8, 101u8, 98u8, 112u8],
    ]
}

/// Whether the file name has the extension of an image that can be shown,
/// in small or capital letters.
pub open spec fn has_supported_extension(name: Seq<u8>) -> bool {
    match extension_start(name) {
        Some(start) => exists|w: int|
            0 <= w < supported_words().len() && is_word(name, start, #[trigger] supported_words()[w]),
        None => false,
    }
}

/// Whether a directory entry is an image of the collection.
pub open spec fn is_image(item: DirItem) -> bool {
    item.is_file && has_supported_extension(item.entry.name@)
}

/// The images among the entries of a listing, in the order of the listing.
pub open spec fn images_of(listing: Seq<DirItem>) -> Seq<ImageEntry>
    decreases listing.len(),
{
    if listing.len() == 0 {
        Seq::empty()
    } else if is_image(listing.last()) {
        images_of(listing.drop_last()).push(listing.last().entry)
    } else {
        images_of(listing.drop_last())
    }
}

/// Where the extension of `name` starts, if it has one.
pub fn find_extension(name: &[u8]) -> (r: Option<usize>)
    ensures
        match r {
            Some(start) => extension_start(name@) == Some(start as int) && start <= name.len(),
            None => extension_start(name@) is None,
        },
{
    if name.len() == 2 && name[0] == DOT && name[1] == DOT {
        assert(name@ =~= seq![DOT, DOT]);
        return None;
    }
    assert(name@ != seq![DOT, DOT]) by {
        if name@ == seq![DOT, DOT] {
            assert(name@.len() == 2 && name@[0] == DOT && name@[1] == DOT);
        }
    }
    let mut upto: usize = name.len();
    while upto > 0
        invariant
            upto <= name.len(),
            name@ != seq![DOT, DOT],
            last_dot(name@, name.len() as int) == last_dot(name@, upto as int),
        decreases upto,
    {
        if name[upto - 1] == DOT {
            if upto - 1 == 0 {
                return None;
            }
            return Some(upto);
        }
        upto -= 1;
    }
    None
}

/// Whether `text`, from `start` on, is `word` but for the case of its
/// letters.
pub(crate) fn matches_word(text: &[u8], start: usize, word: &[u8]) -> (r: bool)
    requires
        start <= text.len(),
    ensures
        r == is_word(text@, start as int, word@),
{
    if text.len() - start != word.len() {
        return false;
    }
    let mut k: usize = 0;
    while k < word.len()
        invariant
            k <= word.len(),
            start <= text.len(),
            text.len() - start == word.len(),
            forall|j: int| 0 <= j < k ==> lower(#[trigger] text@[start + j]) == word@[j],
        decreases word.len() - k,
    {
        let b: u8 = text[start + k];
        let small: u8 = if 65 <= b && b <= 90 {
            b + 32
        } else {
            b
        };
        if small != word[k] {
            return false;
        }
        k += 1;
    }
    true
}

/// Whether the file name has the extension of an image that can be shown.
pub fn is_supported_name(name: &[u8]) -> (r: bool)
    ensures
        r == has_supported_extension(name@),
{
    match find_extension(name) {
        None => false,
        Some(start) => {
            let bmp: [u8; 3] = [98, 109, 112];
            let jpg: [u8; 3] = [106, 112, 103];
            let jpeg: [u8; 4] = [106, 112, 101, 103];
            let png: [u8; 3] = [112, 110, 103];
            let tif: [u8; 3] = [116, 105, 102];
            let gif: [u8; 3] = [103, 105, 102];
            let webp: [u8; 4] = [119, 101, 98, 112];
            proof {
                let words = supported_words();
                assert(bmp@ =~= words[0]);
                assert(jpg@ =~= words[1]);
                assert(jpeg@ =~= words[2]);
                assert(png@ =~= words[3]);
                assert(tif@ =~= words[4]);
                assert(gif@ =~= words[5]);
                assert(webp@ =~= words[6]);
            }
            matches_word(name, start, &bmp) || matches_word(name, start, &jpg) || matches_word(
                name,
                start,
                &jpeg,
            ) || matches_word(name, start, &png) || matches_word(name, start, &tif)
                || matches_word(name, start, &gif) || matches_word(name, start, &webp)
        },
    }
}

/// The images among the entries of a listing, in the order of the listing.
pub fn collect_images(listing: Vec<DirItem>) -> (images: Vec<ImageEntry>)
    ensures
        images@ == images_of(listing@),
{
    let mut images: Vec<ImageEntry> = Vec::new();
    let ghost all = listing@;
    for item in it: listing.into_iter()
        invariant
            it.seq() == all,
            images@ == images_of(all.take(it.index() as int)),
    {
        assert(all.take(it.index() + 1).drop_last() == all.take(it.index() as int));
        if item.is_file && is_supported_name(item.entry.name.as_slice()) {
            images.push(item.entry);
        }
    }
    assert(all.take(all.len() as int) == all);
    images
}

/// Whether the time `a` is no later than the time `b`. An unknown time is
/// earlier than every known one.
pub open spec fn time_le(a: Option<i128>, b: Option<i128>) -> bool {
    match (a, b) {
        (None, _) => true,
        (Some(_), None) => false,
        (Some(x), Some(y)) => x <= y,
    }
}

/// The size that an entry is ordered by: zero where it is unknown.
pub open spec fn size_key(size: Option<u64>) -> int {
    match size {
        Some(n) => n as int,
        None => 0,
    }
}

/// Whether `a` may stand before `b` in the order of `key`: its key is
/// smaller or the same.
pub open spec fn precedes(a: ImageEntry, b: ImageEntry, key: SortDir) -> bool {
    match key {
        SortDir::Name => lex_le(a.name@, b.name@),
        SortDir::Ext => lex_le(extension(a.name@), extension(b.name@)),
        SortDir::Date => time_le(a.modified, b.modified),
        SortDir::Size => size_key(a.size) <= size_key(b.size),
    }
}

/// Whether `p` lists the numbers below `n`, each once.
pub open spec fn is_rearrangement(p: Seq<int>, n: int) -> bool {
    &&& p.len() == n
    &&& forall|k: int| 0 <= k < n ==> 0 <= #[trigger] p[k] < n
    &&& forall|a: int, b: int| 0 <= a < b < n ==> p[a] != p[b]
}

/// Whether `sorted` holds the entries of `entries` in the order of `key`,
/// entries of the same key in the order they had, where `from[k]` is the
/// position in `entries` of the entry that stands at `k` in `sorted`.
pub open spec fn sorts_stably(
    entries: Seq<ImageEntry>,
    sorted: Seq<ImageEntry>,
    from: Seq<int>,
    key: SortDir,
) -> bool {
    &&& sorted.len() == entries.len()
    &&& is_rearrangement(from, entries.len() as int)
    &&& forall|k: int| 0 <= k < sorted.len() ==> #[trigger] sorted[k] == entries[from[k]]
    &&& forall|a: int, b: int|
        0 <= a < b < sorted.len() ==> precedes(#[trigger] sorted[a], #[trigger] sorted[b], key)
            && (precedes(sorted[b], sorted[a], key) ==> from[a] < from[b])
}

/// Whether `sorted` is `entries` ordered by `key`, entries of the same key
/// in the order they had.
pub open spec fn is_stable_sort(entries: Seq<ImageEntry>, sorted: Seq<ImageEntry>, key: SortDir) -> bool {
    exists|from: Seq<int>| sorts_stably(entries, sorted, from, key)
}

/// Of two entries one may stand before the other.
pub proof fn lemma_precedes_total(a: ImageEntry, b: ImageEntry, key: SortDir)
    ensures
        precedes(a, b, key) || precedes(b, a, key),
{
    lemma_lex_total(a.name@, b.name@, 0);
    lemma_lex_total(extension(a.name@), extension(b.name@), 0);
}

/// What may stand before an entry may stand before all that the entry may
/// stand before.
pub proof fn lemma_precedes_transitive(a: ImageEntry, b: ImageEntry, c: ImageEntry, key: SortDir)
    requires
        precedes(a, b, key),
        precedes(b, c, key),
    ensures
        precedes(a, c, key),
{
    match key {
        SortDir::Name => lemma_lex_transitive(a.name@, b.name@, c.name@, 0),
        SortDir::Ext => lemma_lex_transitive(
            extension(a.name@),
            extension(b.name@),
            extension(c.name@),
            0,
        ),
        _ => {},
    }
}

/// Whether `a` may stand before `b` in the order of `key`.
pub fn entry_le(a: &ImageEntry, b: &ImageEntry, key: SortDir) -> (r: bool)
    ensures
        r == precedes(*a, *b, key),
{
    match key {
        SortDir::Name => bytes_le(a.name.as_slice(), b.name.as_slice()),
        SortDir::Ext => {
            let from_a: usize = match find_extension(a.name.as_slice()) {
                Some(start) => start,
                None => a.name.len(),
            };
            let from_b: usize = match find_extension(b.name.as_slice()) {
                Some(start) => start,
                None => b.name.len(),
            };
            assert(a.name@.skip(from_a as int) =~= extension(a.name@));
            assert(b.name@.skip(from_b as int) =~= extension(b.name@));
            bytes_le_from(a.name.as_slice(), from_a, b.name.as_slice(), from_b)
        },
        SortDir::Date => match a.modified {
            None => true,
            Some(x) => match b.modified {
                None => false,
                Some(y) => x <= y,
            },
        },
        SortDir::Size => {
            let x: u64 = match a.size {
                Some(n) => n,
                None => 0,
            };
            let y: u64 = match b.size {
                Some(n) => n,
                None => 0,
            };
            x <= y
        },
    }
}

/// Whether the entry at position `i` comes before the entry at position
/// `j` when the entries are put in the order of `key`: its key is smaller,
/// or the keys are the same and it stood first.
pub open spec fn ranks_before(entries: Seq<ImageEntry>, i: int, j: int, key: SortDir) -> bool {
    precedes(entries[i], entries[j], key) && (precedes(entries[j], entries[i], key) ==> i < j)
}

/// Whether the positions in `run` name entries, each of which comes before
/// all that follow it.
pub open spec fn is_ordered_run(entries: Seq<ImageEntry>, run: Seq<usize>, key: SortDir) -> bool {
    &&& forall|k: int| 0 <= k < run.len() ==> (#[trigger] run[k]) < entries.len()
    &&& forall|a: int, b: int|
        0 <= a < b < run.len() ==> ranks_before(
            entries,
            #[trigger] run[a] as int,
            #[trigger] run[b] as int,
            key,
        )
}

/// Merges two ordered runs of positions into one. Every position of the
/// first run lies before every position of the second.
fn merge_runs(entries: &Vec<ImageEntry>, first: &Vec<usize>, second: &Vec<usize>, key: SortDir) -> (run:
    Vec<usize>)
    requires
        is_ordered_run(entries@, first@, key),
        is_ordered_run(entries@, second@, key),
        forall|a: int, b: int|
            0 <= a < first@.len() && 0 <= b < second@.len() ==> (#[trigger] first@[a])
                < #[trigger] second@[b],
        first@.len() + second@.len() <= usize::MAX,
    ensures
        is_ordered_run(entries@, run@, key),
        run@.len() == first@.len() + second@.len(),
        forall|k: int|
            0 <= k < run@.len() ==> first@.contains(#[trigger] run@[k]) || second@.contains(run@[k]),
{
    let mut run: Vec<usize> = Vec::new();
    let mut i: usize = 0;
    let mut j: usize = 0;
    while i < first.len() || j < second.len()
        invariant
            i <= first@.len(),
            j <= second@.len(),
            run@.len() == i + j,
            is_ordered_run(entries@, first@, key),
            is_ordered_run(entries@, second@, key),
            forall|a: int, b: int|
                0 <= a < first@.len() && 0 <= b < second@.len() ==> (#[trigger] first@[a])
                    < #[trigger] second@[b],
            is_ordered_run(entries@, run@, key),
            forall|k: int|
                0 <= k < run@.len() ==> first@.contains(#[trigger] run@[k]) || second@.contains(
                    run@[k],
                ),
            forall|k: int, a: int|
                0 <= k < run@.len() && i <= a < first@.len() ==> ranks_before(
                    entries@,
                    #[trigger] run@[k] as int,
                    #[trigger] first@[a] as int,
                    key,
                ),
            forall|k: int, b: int|
                0 <= k < run@.len() && j <= b < second@.len() ==> ranks_before(
                    entries@,
                    #[trigger] run@[k] as int,
                    #[trigger] second@[b] as int,
                    key,
                ),
        decreases first@.len() - i + second@.len() - j,
    {
        let from_first: bool = if j >= second.len() {
            true
        } else if i >= first.len() {
            false
        } else {
            entry_le(&entries[first[i]], &entries[second[j]], key)
        };
        let ghost before = run@;
        if from_first {
            let x: usize = first[i];
            proof {
                assert forall|b: int| j <= b < second@.len() implies ranks_before(
                    entries@,
                    x as int,
                    #[trigger] second@[b] as int,
                    key,
                ) by {
                    assert(first@[i as int] < second@[b]);
                    if b > j {
                        assert(ranks_before(entries@, second@[j as int] as int, second@[b] as int, key));
                        lemma_precedes_transitive(
                            entries@[x as int],
                            entries@[second@[j as int] as int],
                            entries@[second@[b] as int],
                            key,
                        );
                    }
                }
                assert forall|a: int| i < a < first@.len() implies ranks_before(
                    entries@,
                    x as int,
                    #[trigger] first@[a] as int,
                    key,
                ) by {
                    assert(ranks_before(entries@, first@[i as int] as int, first@[a] as int, key));
                }
            }
            run.push(x);
            i += 1;
            assert(first@.contains(x));
        } else {
            let y: usize = second[j];
            proof {
                assert forall|a: int| i <= a < first@.len() implies ranks_before(
                    entries@,
                    y as int,
                    #[trigger] first@[a] as int,
                    key,
                ) by {
                    let head = entries@[first@[i as int] as int];
                    let other = entries@[first@[a] as int];
                    lemma_precedes_total(head, entries@[y as int], key);
                    if a > i {
                        assert(ranks_before(entries@, first@[i as int] as int, first@[a] as int, key));
                        lemma_precedes_transitive(entries@[y as int], head, other, key);
                        if precedes(other, entries@[y as int], key) {
                            lemma_precedes_transitive(head, other, entries@[y as int], key);
                        }
                    }
                }
                assert forall|b: int| j < b < second@.len() implies ranks_before(
                    entries@,
                    y as int,
                    #[trigger] second@[b] as int,
                    key,
                ) by {
                    assert(ranks_before(entries@, second@[j as int] as int, second@[b] as int, key));
                }
            }
            run.push(y);
            j += 1;
            assert(second@.contains(y));
        }
        proof {
            let last = run@.len() - 1;
            assert forall|k: int| 0 <= k < run@.len() implies first@.contains(#[trigger] run@[k])
                || second@.contains(run@[k]) by {
                if k < last {
                    assert(run@[k] == before[k]);
                }
            }
            assert forall|a: int, b: int| 0 <= a < b < run@.len() implies ranks_before(
                entries@,
                #[trigger] run@[a] as int,
                #[trigger] run@[b] as int,
                key,
            ) by {
                assert(run@[a] == before[a]);
                if b < last {
                    assert(run@[b] == before[b]);
                }
            }
            assert forall|k: int| 0 <= k < run@.len() implies (#[trigger] run@[k]) < entries@.len() by {
                if k < last {
                    assert(run@[k] == before[k]);
                }
            }
            assert forall|k: int, a: int| 0 <= k < run@.len() && i <= a < first@.len() implies ranks_before(
                entries@,
                #[trigger] run@[k] as int,
                #[trigger] first@[a] as int,
                key,
            ) by {
                if k < last {
                    assert(run@[k] == before[k]);
                }
            }
            assert forall|k: int, b: int| 0 <= k < run@.len() && j <= b < second@.len() implies ranks_before(
                entries@,
                #[trigger] run@[k] as int,
                #[trigger] second@[b] as int,
                key,
            ) by {
                if k < last {
                    assert(run@[k] == before[k]);
                }
            }
        }
    }
    run
}

/// The positions from `lo` up to `hi`, ordered as their entries are in the
/// order of `key`.
fn ordered_positions(entries: &Vec<ImageEntry>, lo: usize, hi: usize, key: SortDir) -> (run: Vec<
    usize,
>)
    requires
        lo <= hi <= entries@.len(),
    ensures
        is_ordered_run(entries@, run@, key),
        run@.len() == hi - lo,
        forall|k: int| 0 <= k < run@.len() ==> lo <= #[trigger] run@[k] < hi,
    decreases hi - lo,
{
    if hi - lo == 0 {
        Vec::new()
    } else if hi - lo == 1 {
        let mut run: Vec<usize> = Vec::new();
        run.push(lo);
        run
    } else {
        let mid: usize = lo + (hi - lo) / 2;
        let first = ordered_positions(entries, lo, mid, key);
        let second = ordered_positions(entries, mid, hi, key);
        let run = merge_runs(entries, &first, &second, key);
        assert forall|k: int| 0 <= k < run@.len() implies lo <= #[trigger] run@[k] < hi by {
            if first@.contains(run@[k]) {
                let a = choose|a: int| 0 <= a < first@.len() && first@[a] == run@[k];
                assert(lo <= first@[a] < mid);
            } else {
                let b = choose|b: int| 0 <= b < second@.len() && second@[b] == run@[k];
                assert(mid <= second@[b] < hi);
            }
        }
        run
    }
}

/// Orders the entries by `key`. Entries of the same key keep the order
/// they had, so that ordering again by the same key changes nothing.
pub fn sort_entries(entries: &mut Vec<ImageEntry>, key: SortDir)
    ensures
        is_stable_sort(old(entries)@, final(entries)@, key),
{
    let ghost before = entries@;
    let n: usize = entries.len();
    let order = ordered_positions(entries, 0, n, key);
    let mut taken: Vec<ImageEntry> = Vec::new();
    core::mem::swap(entries, &mut taken);
    let mut slots: Vec<Option<ImageEntry>> = Vec::new();
    for entry in it: taken.into_iter()
        invariant
            it.seq() == before,
            slots@.len() == it.index(),
            forall|k: int| 0 <= k < slots@.len() ==> #[trigger] slots@[k] == Some(before[k]),
    {
        slots.push(Some(entry));
    }
    let ghost from: Seq<int> = Seq::new(n as nat, |k: int| order@[k] as int);
    assert forall|a: int, b: int| 0 <= a < b < n implies from[a] != from[b] by {
        assert(ranks_before(before, order@[a] as int, order@[b] as int, key));
        lemma_precedes_total(before[from[a]], before[from[a]], key);
    }
    let mut k: usize = 0;
    while k < n
        invariant
            k <= n,
            n == before.len(),
            order@.len() == n,
            slots@.len() == n,
            entries@.len() == k,
            from == Seq::new(n as nat, |k: int| order@[k] as int),
            forall|a: int| 0 <= a < n ==> (#[trigger] order@[a]) < n,
            forall|a: int, b: int| 0 <= a < b < n ==> from[a] != from[b],
            forall|a: int| 0 <= a < k ==> #[trigger] entries@[a] == before[from[a]],
            forall|i: int|
                0 <= i < n && (forall|a: int| 0 <= a < k ==> from[a] != i) ==> #[trigger] slots@[i]
                    == Some(before[i]),
        decreases n - k,
    {
        let at: usize = order[k];
        assert(forall|a: int| 0 <= a < k ==> from[a] != from[k as int]);
        assert(from[k as int] == at);
        let slot = slots[at].take();
        match slot {
            Some(entry) => {
                entries.push(entry);
            },
            None => {
                assert(false);
            },
        }
        k += 1;
    }
    proof {
        assert forall|a: int, b: int| 0 <= a < b < n implies precedes(
            #[trigger] entries@[a],
            #[trigger] entries@[b],
            key,
        ) && (precedes(entries@[b], entries@[a], key) ==> from[a] < from[b]) by {
            assert(ranks_before(before, order@[a] as int, order@[b] as int, key));
        }
        assert(sorts_stably(before, entries@, from, key));
    }
}

/// The images of one directory and the one that is shown.
#[derive(Clone, Debug)]
pub struct Collection {
    /// The directory that the entries were read from, links resolved.
    pub folder: Option<Vec<u8>>,
    pub entries: Vec<ImageEntry>,
    /// Position of the shown image among the entries.
    pub index: usize,
}

/// A path as its bytes, where there is one.
pub open spec fn path_bytes(path: Option<Vec<u8>>) -> Option<Seq<u8>> {
    match path {
        Some(p) => Some(p@),
        None => None,
    }
}

/// Whether `target` is the resolved path of the entry.
pub open spec fn is_named(entry: ImageEntry, target: Seq<u8>) -> bool {
    path_bytes(entry.canonical) == Some(target)
}

/// The first position from `start` on whose entry has the resolved path
/// `target`.
pub open spec fn first_named(entries: Seq<ImageEntry>, target: Seq<u8>, start: int) -> Option<int>
    decreases entries.len() - start,
{
    if start >= entries.len() {
        None
    } else if is_named(entries[start], target) {
        Some(start)
    } else {
        first_named(entries, target, start + 1)
    }
}

/// Where the image of the resolved path `target` stands among the entries.
/// A path that could not be resolved is found nowhere.
pub open spec fn located(entries: Seq<ImageEntry>, target: Option<Seq<u8>>) -> Option<int> {
    match target {
        Some(t) => first_named(entries, t, 0),
        None => None,
    }
}

/// The position one step from `index` among `len` entries, forward where
/// `direction` is positive and backward else, around the ends. Among no
/// entries the position stays.
pub open spec fn advanced(index: int, len: int, direction: int) -> int {
    if len <= 0 {
        index
    } else if direction > 0 {
        (index + 1) % len
    } else {
        (index + len - 1) % len
    }
}

/// The position that stays after the entries were replaced: the one that
/// was, unless it names none of the `len` new entries, and then the first.
/// Among no entries the position stays whatever it was.
pub open spec fn kept_position(index: int, len: int) -> int {
    if len > 0 && index >= len {
        0
    } else {
        index
    }
}

/// The position `count` steps from `index`.
pub open spec fn advanced_by(index: int, len: int, direction: int, count: nat) -> int
    decreases count,
{
    if count == 0 {
        index
    } else {
        advanced(advanced_by(index, len, direction, (count - 1) as nat), len, direction)
    }
}

/// Whether two paths are the same, or both are missing.
pub fn same_path(a: &Option<Vec<u8>>, b: &Option<Vec<u8>>) -> (r: bool)
    ensures
        r == (path_bytes(*a) == path_bytes(*b)),
{
    match a {
        None => b.is_none(),
        Some(x) => match b {
            None => false,
            Some(y) => bytes_eq(x.as_slice(), y.as_slice()),
        },
    }
}

/// Where the image of the resolved path `target` stands among the entries.
pub fn locate(entries: &Vec<ImageEntry>, target: &Option<Vec<u8>>) -> (r: Option<usize>)
    ensures
        match r {
            Some(k) => located(entries@, path_bytes(*target)) == Some(k as int) && k
                < entries.len(),
            None => located(entries@, path_bytes(*target)) is None,
        },
{
    match target {
        None => None,
        Some(t) => {
            let mut k: usize = 0;
            while k < entries.len()
                invariant
                    k <= entries.len(),
                    path_bytes(*target) == Some(t@),
                    first_named(entries@, t@, 0) == first_named(entries@, t@, k as int),
                decreases entries.len() - k,
            {
                let hit: bool = match &entries[k].canonical {
                    Some(c) => bytes_eq(c.as_slice(), t.as_slice()),
                    None => false,
                };
                assert(hit == is_named(entries@[k as int], t@)) by {
                    match entries@[k as int].canonical {
                        Some(c) => {
                            assert(path_bytes(Some(c)) == Some(c@));
                        },
                        None => {},
                    }
                }
                if hit {
                    return Some(k);
                }
                k += 1;
            }
            None
        },
    }
}

/// The position one step from `index` among `len` entries.
pub fn advance(index: usize, len: usize, direction: i32) -> (r: usize)
    ensures
        r == advanced(index as int, len as int, direction as int),
        len > 0 ==> r < len,
{
    if len == 0 {
        return index;
    }
    let at: usize = index % len;
    proof {
        vstd::arithmetic::div_mod::lemma_add_mod_noop(index as int, 1, len as int);
        vstd::arithmetic::div_mod::lemma_add_mod_noop(index as int, len - 1, len as int);
        vstd::arithmetic::div_mod::lemma_small_mod((len - 1) as nat, len as nat);
        if len > 1 {
            vstd::arithmetic::div_mod::lemma_small_mod(1, len as nat);
        }
        if at + 1 < len {
            vstd::arithmetic::div_mod::lemma_small_mod((at + 1) as nat, len as nat);
        } else {
            vstd::arithmetic::div_mod::lemma_mod_self_0(len as int);
        }
        if at > 0 {
            vstd::arithmetic::div_mod::lemma_mod_self_0(len as int);
            vstd::arithmetic::div_mod::lemma_fundamental_div_mod_converse(
                at + len - 1,
                len as int,
                1,
                at - 1,
            );
        } else {
            vstd::arithmetic::div_mod::lemma_small_mod((len - 1) as nat, len as nat);
        }
    }
    if direction > 0 {
        if at + 1 == len {
            0
        } else {
            at + 1
        }
    } else {
        if at == 0 {
            len - 1
        } else {
            at - 1
        }
    }
}

impl Collection {
    /// Whether the position names an entry, as it does in every collection
    /// that is not empty.
    pub open spec fn wf(self) -> bool {
        self.entries@.len() > 0 ==> self.index < self.entries@.len()
    }

    /// The entries that a listing of `folder` leaves in the collection:
    /// the images of the listing, or none where the directory is unknown
    /// or could not be read.
    pub open spec fn scanned(folder: Option<Vec<u8>>, listing: Option<Vec<DirItem>>) -> Seq<
        ImageEntry,
    > {
        match (folder, listing) {
            (Some(_), Some(items)) => images_of(items@),
            _ => Seq::empty(),
        }
    }

    /// A collection of no images, read from no directory.
    pub fn new() -> (c: Collection)
        ensures
            c.folder is None,
            c.entries@.len() == 0,
            c.index == 0,
            c.wf(),
    {
        Collection { folder: None, entries: Vec::new(), index: 0 }
    }

    /// Whether the images shown now lie in another directory than the one
    /// that the entries were read from, so that they have to be read again.
    pub fn needs_rescan(&self, folder: &Option<Vec<u8>>) -> (r: bool)
        ensures
            r == (path_bytes(self.folder) != path_bytes(*folder)),
    {
        !same_path(&self.folder, folder)
    }

    /// The collection of the images of a directory. `listing` is what the
    /// directory `folder` holds, or nothing where it could not be read. The
    /// first image is the shown one.
    pub fn scan(folder: Option<Vec<u8>>, listing: Option<Vec<DirItem>>) -> (c: Collection)
        ensures
            c.folder == folder,
            c.entries@ == Collection::scanned(folder, listing),
            c.index == 0,
            c.wf(),
    {
        let entries: Vec<ImageEntry> = match listing {
            Some(items) => {
                if folder.is_some() {
                    collect_images(items)
                } else {
                    Vec::new()
                }
            },
            None => Vec::new(),
        };
        Collection { folder, entries, index: 0 }
    }

    /// Replaces the entries by the images of a new listing, as [`scan`]
    /// collects them. The position stays where it still names an entry;
    /// where it names none of the new entries, it becomes the first.
    ///
    /// [`scan`]: Collection::scan
    pub fn rescan(&mut self, folder: Option<Vec<u8>>, listing: Option<Vec<DirItem>>)
        ensures
            final(self).folder == folder,
            final(self).entries@ == Collection::scanned(folder, listing),
            final(self).index as int == kept_position(
                old(self).index as int,
                final(self).entries@.len() as int,
            ),
            final(self).wf(),
    {
        let index: usize = self.index;
        *self = Collection::scan(folder, listing);
        if self.entries.len() == 0 || index < self.entries.len() {
            self.index = index;
        }
    }

    /// Where the image of the resolved path `target` stands among the
    /// entries. A path that could not be resolved is found nowhere.
    pub fn locate(&self, target: &Option<Vec<u8>>) -> (r: Option<usize>)
        ensures
            match r {
                Some(k) => located(self.entries@, path_bytes(*target)) == Some(k as int) && k
                    < self.entries@.len(),
                None => located(self.entries@, path_bytes(*target)) is None,
            },
    {
        locate(&self.entries, target)
    }

    /// The position one step from `index`, forward where `direction` is
    /// positive and backward else, around the ends. In a collection of no
    /// images it is `index`.
    pub fn advance(&self, index: usize, direction: i32) -> (r: usize)
        ensures
            r == advanced(index as int, self.entries@.len() as int, direction as int),
            self.entries@.len() > 0 ==> r < self.entries@.len(),
    {
        advance(index, self.entries.len(), direction)
    }

    /// Orders the entries by `key`, entries of the same key in the order
    /// they had. The position stays the same number.
    pub fn sort(&mut self, key: SortDir)
        ensures
            is_stable_sort(old(self).entries@, final(self).entries@, key),
            final(self).index == old(self).index,
            final(self).folder == old(self).folder,
            old(self).wf() ==> final(self).wf(),
    {
        sort_entries(&mut self.entries, key);
        proof {
            let from = choose|from: Seq<int>|
                sorts_stably(old(self).entries@, self.entries@, from, key);
            assert(sorts_stably(old(self).entries@, self.entries@, from, key));
        }
    }

    /// Makes the image of the resolved path `target` the shown one, where
    /// it is among the entries; else the position stays.
    pub fn select(&mut self, target: &Option<Vec<u8>>) -> (found: bool)
        ensures
            found == located(old(self).entries@, path_bytes(*target)) is Some,
            final(self).index as int == match located(old(self).entries@, path_bytes(*target)) {
                Some(k) => k,
                None => old(self).index as int,
            },
            final(self).entries == old(self).entries,
            final(self).folder == old(self).folder,
            old(self).wf() ==> final(self).wf(),
    {
        match self.locate(target) {
            Some(k) => {
                self.index = k;
                true
            },
            None => false,
        }
    }

    /// Brings the collection up to date for the image that is shown now.
    /// Where the image lies in another directory than the entries, the
    /// entries are replaced by the images of `listing`. Then the entries
    /// are ordered by `key`, and the image of the resolved path `target`
    /// becomes the shown one. Where that image is not among the entries,
    /// the position stays; only a position that names none of the entries
    /// of a new listing becomes the first.
    pub fn make_image_list(
        &mut self,
        folder: Option<Vec<u8>>,
        listing: Option<Vec<DirItem>>,
        key: SortDir,
        target: &Option<Vec<u8>>,
    )
        ensures
            path_bytes(final(self).folder) == path_bytes(folder),
            is_stable_sort(
                if path_bytes(old(self).folder) != path_bytes(folder) {
                    Collection::scanned(folder, listing)
                } else {
                    old(self).entries@
                },
                final(self).entries@,
                key,
            ),
            final(self).index as int == match located(final(self).entries@, path_bytes(*target)) {
                Some(k) => k,
                None => if path_bytes(old(self).folder) != path_bytes(folder) {
                    kept_position(old(self).index as int, final(self).entries@.len() as int)
                } else {
                    old(self).index as int
                },
            },
            old(self).wf() ==> final(self).wf(),
            path_bytes(old(self).folder) != path_bytes(folder) ==> final(self).wf(),
    {
        if self.needs_rescan(&folder) {
            self.rescan(folder, listing);
        }
        self.sort(key);
        self.select(target);
    }

    /// Moves to the next image where `direction` is positive, to the one
    /// before else, around the ends. Among no images nothing moves.
    /// Returns whether there is an image to show.
    pub fn navigation(&mut self, direction: i32) -> (moved: bool)
        ensures
            moved == (old(self).entries@.len() > 0),
            final(self).index as int == advanced(
                old(self).index as int,
                old(self).entries@.len() as int,
                direction as int,
            ),
            final(self).entries == old(self).entries,
            final(self).folder == old(self).folder,
            final(self).wf(),
    {
        if self.entries.len() == 0 {
            return false;
        }
        self.index = self.advance(self.index, direction);
        true
    }

    /// The shown image, where there is one.
    pub fn current(&self) -> (r: Option<&ImageEntry>)
        ensures
            match r {
                Some(e) => self.index < self.entries@.len() && *e == self.entries@[self.index as int],
                None => self.index >= self.entries@.len(),
            },
    {
        if self.index < self.entries.len() {
            Some(&self.entries[self.index])
        } else {
            None
        }
    }
}


/// `count` steps forward from a position lead to the position `count`
/// further on, counted around the end.
proof fn lemma_steps_forward(index: int, len: int, count: nat)
    requires
        0 <= index < len,
    ensures
        advanced_by(index, len, 1, count) == (index + count) % len,
    decreases count,
{
    if count == 0 {
        vstd::arithmetic::div_mod::lemma_small_mod(index as nat, len as nat);
    } else {
        lemma_steps_forward(index, len, (count - 1) as nat);
        vstd::arithmetic::div_mod::lemma_add_mod_noop(index + count - 1, 1, len);
        vstd::arithmetic::div_mod::lemma_mod_twice(index + count - 1, len);
        if len > 1 {
            vstd::arithmetic::div_mod::lemma_small_mod(1, len as nat);
        } else {
            vstd::arithmetic::div_mod::lemma_mod_self_0(1);
        }
    }
}

/// `count` steps backward from a position lead to the position `count`
/// before it, counted around the start.
proof fn lemma_steps_backward(index: int, len: int, count: nat)
    requires
        0 <= index < len,
    ensures
        advanced_by(index, len, -1, count) == (index + count * (len - 1)) % len,
    decreases count,
{
    if count == 0 {
        vstd::arithmetic::div_mod::lemma_small_mod(index as nat, len as nat);
    } else {
        lemma_steps_backward(index, len, (count - 1) as nat);
        let before = index + (count - 1) * (len - 1);
        assert(index + count * (len - 1) == before + (len - 1)) by (nonlinear_arith)
            requires
                before == index + (count - 1) * (len - 1),
        ;
        vstd::arithmetic::div_mod::lemma_add_mod_noop(before, len - 1, len);
        vstd::arithmetic::div_mod::lemma_mod_twice(before, len);
        vstd::arithmetic::div_mod::lemma_small_mod((len - 1) as nat, len as nat);
    }
}

/// As many steps as there are images lead back to the image where the walk
/// began, forward as well as backward.
pub proof fn lemma_full_circle(index: int, len: int)
    requires
        0 <= index < len,
    ensures
        advanced_by(index, len, 1, len as nat) == index,
        advanced_by(index, len, -1, len as nat) == index,
{
    lemma_steps_forward(index, len, len as nat);
    lemma_steps_backward(index, len, len as nat);
    vstd::arithmetic::div_mod::lemma_mod_multiples_vanish(1, index, len);
    vstd::arithmetic::div_mod::lemma_mod_multiples_vanish(len - 1, index, len);
    vstd::arithmetic::div_mod::lemma_small_mod(index as nat, len as nat);
    assert(len * (len - 1) + index == index + len * (len - 1));
    assert(len * 1 + index == index + len);
}

/// A step backward and a step forward lead back to the same image, and so
/// do a step forward and a step backward.
pub proof fn lemma_back_and_forth(index: int, len: int)
    requires
        0 <= index < len,
    ensures
        advanced(advanced(index, len, -1), len, 1) == index,
        advanced(advanced(index, len, 1), len, -1) == index,
{
    lemma_step_positions(index, len);
    lemma_step_positions(advanced(index, len, -1), len);
    lemma_step_positions(advanced(index, len, 1), len);
}

/// A step forward leads to the next position, from the last to the first; a
/// step backward leads to the one before, from the first to the last.
pub proof fn lemma_step_positions(index: int, len: int)
    requires
        0 <= index < len,
    ensures
        advanced(index, len, 1) == (if index + 1 == len {
            0
        } else {
            index + 1
        }),
        advanced(index, len, -1) == (if index == 0 {
            len - 1
        } else {
            index - 1
        }),
{
    if index + 1 == len {
        vstd::arithmetic::div_mod::lemma_mod_self_0(len);
    } else {
        vstd::arithmetic::div_mod::lemma_small_mod((index + 1) as nat, len as nat);
    }
    if index == 0 {
        vstd::arithmetic::div_mod::lemma_small_mod((len - 1) as nat, len as nat);
    } else {
        vstd::arithmetic::div_mod::lemma_fundamental_div_mod_converse(
            index + len - 1,
            len,
            1,
            index - 1,
        );
    }
}

/// The search from `start` passes the entries that do not have the
/// resolved path `target`.
proof fn lemma_first_named_passes(entries: Seq<ImageEntry>, target: Seq<u8>, start: int, k: int)
    requires
        0 <= start <= k < entries.len(),
        is_named(entries[k], target),
        forall|j: int| start <= j < k ==> !is_named(#[trigger] entries[j], target),
    ensures
        first_named(entries, target, start) == Some(k),
    decreases k - start,
{
    if start < k {
        lemma_first_named_passes(entries, target, start + 1, k);
    }
}

/// Looking an entry up by its own resolved path finds the entry, provided
/// that no entry before it has the same resolved path.
pub proof fn lemma_locate_round_trip(entries: Seq<ImageEntry>, k: int)
    requires
        0 <= k < entries.len(),
        entries[k].canonical is Some,
        forall|j: int|
            0 <= j < k ==> path_bytes(#[trigger] entries[j].canonical) != path_bytes(
                entries[k].canonical,
            ),
    ensures
        located(entries, path_bytes(entries[k].canonical)) == Some(k),
{
    let target = entries[k].canonical->Some_0@;
    lemma_first_named_passes(entries, target, 0, k);
}

/// After sorting, looking an entry up by its own resolved path finds the
/// entry where it stands now, for entries whose paths were all resolved
/// and differ from one another.
pub proof fn lemma_locate_after_sort(
    entries: Seq<ImageEntry>,
    sorted: Seq<ImageEntry>,
    key: SortDir,
    k: int,
)
    requires
        is_stable_sort(entries, sorted, key),
        forall|i: int| 0 <= i < entries.len() ==> (#[trigger] entries[i]).canonical is Some,
        forall|i: int, j: int|
            0 <= i < j < entries.len() ==> path_bytes(#[trigger] entries[i].canonical)
                != path_bytes(#[trigger] entries[j].canonical),
        0 <= k < sorted.len(),
    ensures
        located(sorted, path_bytes(sorted[k].canonical)) == Some(k),
{
    let from = choose|from: Seq<int>| sorts_stably(entries, sorted, from, key);
    assert(sorted[k] == entries[from[k]]);
    assert forall|j: int| 0 <= j < k implies path_bytes(#[trigger] sorted[j].canonical)
        != path_bytes(sorted[k].canonical) by {
        assert(sorted[j] == entries[from[j]]);
        assert(from[j] != from[k]);
        if from[j] < from[k] {
            assert(path_bytes(entries[from[j]].canonical) != path_bytes(entries[from[k]].canonical));
        } else {
            assert(path_bytes(entries[from[k]].canonical) != path_bytes(entries[from[j]].canonical));
        }
    }
    lemma_locate_round_trip(sorted, k);
}

/// Every entry that a scan collects is a file with the extension of an
/// image that can be shown, and was in the listing.
pub proof fn lemma_images_are_supported(listing: Seq<DirItem>, k: int)
    requires
        0 <= k < images_of(listing).len(),
    ensures
        has_supported_extension(images_of(listing)[k].name@),
        exists|i: int|
            0 <= i < listing.len() && is_image(#[trigger] listing[i]) && listing[i].entry
                == images_of(listing)[k],
    decreases listing.len(),
{
    let rest = listing.drop_last();
    let last = listing.len() - 1;
    if is_image(listing.last()) && k == images_of(rest).len() {
        assert(listing[last].entry == images_of(listing)[k]);
    } else {
        lemma_images_are_supported(rest, k);
        let i = choose|i: int|
            0 <= i < rest.len() && is_image(#[trigger] rest[i]) && rest[i].entry == images_of(
                rest,
            )[k];
        assert(listing[i] == rest[i]);
    }
}

/// What a search finds has the path that was looked for, and nothing
/// before it has.
pub proof fn lemma_located_is_first(entries: Seq<ImageEntry>, target: Seq<u8>, start: int)
    requires
        0 <= start,
    ensures
        match first_named(entries, target, start) {
            Some(k) => start <= k < entries.len() && is_named(entries[k], target) && forall|j: int|
                start <= j < k ==> !is_named(#[trigger] entries[j], target),
            None => forall|j: int| start <= j < entries.len() ==> !is_named(#[trigger] entries[j], target),
        },
    decreases entries.len() - start,
{
    if start < entries.len() && !is_named(entries[start], target) {
        lemma_located_is_first(entries, target, start + 1);
    }
}

/// Sorting is stable: of two entries with the same key, as two files with
/// the same time of change when sorting by date, the one that stood first
/// before stands first after. `a` and `b` are the places of the two after
/// sorting.
pub proof fn lemma_sort_keeps_ties(
    entries: Seq<ImageEntry>,
    sorted: Seq<ImageEntry>,
    from: Seq<int>,
    key: SortDir,
    a: int,
    b: int,
)
    requires
        sorts_stably(entries, sorted, from, key),
        0 <= a < sorted.len(),
        0 <= b < sorted.len(),
        from[a] < from[b],
        precedes(entries[from[a]], entries[from[b]], key),
    ensures
        a < b,
{
    if b < a {
        assert(precedes(sorted[b], sorted[a], key) && (precedes(sorted[a], sorted[b], key)
            ==> from[b] < from[a]));
        assert(sorted[a] == entries[from[a]] && sorted[b] == entries[from[b]]);
    }
}

/// A rearrangement without a pair out of order leaves everything in place.
proof fn lemma_rising_is_identity(p: Seq<int>, n: int, k: int)
    requires
        is_rearrangement(p, n),
        forall|a: int, b: int| 0 <= a < b < n ==> p[a] < p[b],
        0 <= k < n,
    ensures
        p[k] == k,
{
    lemma_rising_from_below(p, n, k);
    lemma_rising_from_above(p, n, k);
}

proof fn lemma_rising_from_below(p: Seq<int>, n: int, k: int)
    requires
        is_rearrangement(p, n),
        forall|a: int, b: int| 0 <= a < b < n ==> p[a] < p[b],
        0 <= k < n,
    ensures
        p[k] >= k,
    decreases k,
{
    if k > 0 {
        lemma_rising_from_below(p, n, k - 1);
        assert(p[k - 1] < p[k]);
    }
}

proof fn lemma_rising_from_above(p: Seq<int>, n: int, k: int)
    requires
        is_rearrangement(p, n),
        forall|a: int, b: int| 0 <= a < b < n ==> p[a] < p[b],
        0 <= k < n,
    ensures
        p[k] <= k,
    decreases n - k,
{
    if k < n - 1 {
        lemma_rising_from_above(p, n, k + 1);
        assert(p[k] < p[k + 1]);
    }
}

/// Sorting again by the same key changes nothing.
pub proof fn lemma_sort_idempotent(
    entries: Seq<ImageEntry>,
    sorted: Seq<ImageEntry>,
    again: Seq<ImageEntry>,
    key: SortDir,
)
    requires
        is_stable_sort(entries, sorted, key),
        is_stable_sort(sorted, again, key),
    ensures
        again == sorted,
{
    let first = choose|from: Seq<int>| sorts_stably(entries, sorted, from, key);
    let from = choose|from: Seq<int>| sorts_stably(sorted, again, from, key);
    let n = sorted.len() as int;
    assert forall|a: int, b: int| 0 <= a < b < n implies from[a] < from[b] by {
        if from[a] > from[b] {
            assert(precedes(sorted[from[b]], sorted[from[a]], key));
            assert(again[a] == sorted[from[a]] && again[b] == sorted[from[b]]);
            assert(precedes(again[a], again[b], key) && (precedes(again[b], again[a], key)
                ==> from[a] < from[b]));
        }
    }
    assert forall|k: int| 0 <= k < n implies again[k] == sorted[k] by {
        lemma_rising_is_identity(from, n, k);
    }
    assert(again =~= sorted);
}

} // verus!
