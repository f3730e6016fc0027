//! The rotation chain: what the family of files `path`, `path.1`, …,
//! holds after an append with rotation.
//!
//! A chain is modelled as a vector of slots: slot 0 is the live file at
//! `path`, slot `i` the file at `path.i`, `None` an absent file. An append
//! with threshold `max_bytes` and retention `max_files` first rotates when
//! the live file exists and holds at least `max_bytes` bytes — for `i`
//! from `max_files - 1` down to `1`, the file in slot `i - 1` moves into
//! slot `i`, overwriting it, provided slot `i - 1` is occupied — and then
//! writes the line, terminated by a newline byte, at the end of the live
//! file, creating it if absent. Slots at index `max_files` and above are
//! never touched, and a skipped rename (absent source) leaves its target
//! alone, so a chain never grows new files beyond its retention count.

use vstd::prelude::*;

verus! {

/// The byte that terminates every appended line.
pub const NEWLINE_BYTE: u8 = 10;

/// The size of a possibly absent file; an absent file has size zero.
pub open spec fn file_len(f: Option<Seq<u8>>) -> nat {
    match f {
        Option::Some(c) => c.len(),
        Option::None => 0,
    }
}

/// The contents of a possibly absent file; an absent file is empty.
pub open spec fn file_contents(f: Option<Seq<u8>>) -> Seq<u8> {
    match f {
        Option::Some(c) => c,
        Option::None => Seq::empty(),
    }
}

/// An append to this chain rotates first: the live file exists and holds
/// at least `max_bytes` bytes.
pub open spec fn chain_needs_rotation(s: Seq<Option<Seq<u8>>>, max_bytes: u64) -> bool {
    s.len() > 0 && s[0] is Some && s[0].unwrap().len() >= max_bytes
}

/// The chain after the rotation renames, which run for `i` from
/// `max_files - 1` down to `1` and move slot `i - 1` into slot `i` when
/// slot `i - 1` is occupied.
///
/// Elementwise, for `1 <= i < max_files`: slot `i` receives the old slot
/// `i - 1` when that was occupied; otherwise, if `i < max_files - 1`, the
/// old slot `i` has already been moved up by the preceding (higher) step,
/// so slot `i` ends up absent; the last slot `max_files - 1`, whose old
/// file is never a rename source, keeps it when nothing moves in. Slot 0
/// is left absent (its file moved to slot 1) whenever the chain has a
/// backup slot at all. Slots at `max_files` and beyond are untouched.
pub open spec fn rotated_slot(s: Seq<Option<Seq<u8>>>, max_files: u32, i: int) -> Option<
    Seq<u8>,
> {
    if i == 0 {
        if max_files >= 2 && s[0] is Some {
            Option::None
        } else {
            s[0]
        }
    } else if i < max_files {
        if s[i - 1] is Some {
            s[i - 1]
        } else if i < max_files - 1 {
            Option::None
        } else {
            s[i]
        }
    } else {
        s[i]
    }
}

pub open spec fn rotated(s: Seq<Option<Seq<u8>>>, max_files: u32) -> Seq<Option<Seq<u8>>> {
    Seq::new(s.len(), |i: int| rotated_slot(s, max_files, i))
}

/// The file after `line` and a newline terminator are appended to `f`,
/// `f` created empty if absent.
pub open spec fn appended_file(f: Option<Seq<u8>>, line: Seq<u8>) -> Option<Seq<u8>> {
    Option::Some(file_contents(f) + line + seq![NEWLINE_BYTE])
}

/// The whole chain after one append: rotate if the live file has reached
/// `max_bytes`, then append the line to the (possibly fresh) live file.
pub open spec fn chain_after_append(
    s: Seq<Option<Seq<u8>>>,
    line: Seq<u8>,
    max_bytes: u64,
    max_files: u32,
) -> Seq<Option<Seq<u8>>>
    recommends
        s.len() >= 1,
{
    let r = if chain_needs_rotation(s, max_bytes) {
        rotated(s, max_files)
    } else {
        s
    };
    r.update(0, appended_file(r[0], line))
}

/// Replace slot `i` by `None` and hand its old occupant out.
fn take_slot(slots: &mut Vec<Option<Vec<u8>>>, i: usize) -> (r: Option<Vec<u8>>)
    requires
        i < old(slots).len(),
    ensures
        r == old(slots)@[i as int],
        final(slots)@ == old(slots)@.update(i as int, Option::<Vec<u8>>::None),
        final(slots).deep_view() == old(slots).deep_view().update(
            i as int,
            Option::<Seq<u8>>::None,
        ),
{
    let r = slots.remove(i);
    slots.insert(i, None);
    assert(slots@ =~= old(slots)@.update(i as int, Option::<Vec<u8>>::None));
    assert(slots.deep_view() =~= old(slots).deep_view().update(
        i as int,
        Option::<Seq<u8>>::None,
    ));
    r
}

/// Put `v` into slot `i`, dropping the old occupant.
fn set_slot(slots: &mut Vec<Option<Vec<u8>>>, i: usize, v: Option<Vec<u8>>)
    requires
        i < old(slots).len(),
    ensures
        final(slots)@ == old(slots)@.update(i as int, v),
        final(slots).deep_view() == old(slots).deep_view().update(i as int, v.deep_view()),
{
    let _dropped = slots.remove(i);
    slots.insert(i, v);
    assert(slots@ =~= old(slots)@.update(i as int, v));
    assert(slots.deep_view() =~= old(slots).deep_view().update(i as int, v.deep_view()));
}

/// One append against the chain: rotate when the live file has reached
/// `max_bytes`, then append `line` and a newline terminator to the live
/// file. Exactly the transition `chain_after_append` describes.
pub fn append_to_chain(
    slots: &mut Vec<Option<Vec<u8>>>,
    line: &Vec<u8>,
    max_bytes: u64,
    max_files: u32,
)
    requires
        old(slots).len() >= 1,
        max_files as int <= old(slots)@.len(),
    ensures
        final(slots).deep_view() == chain_after_append(
            old(slots).deep_view(),
            line.deep_view(),
            max_bytes,
            max_files,
        ),
{
    let ghost orig = slots.deep_view();
    let ghost n = orig.len();
    assert(orig.len() == slots@.len());

    let needs = match &slots[0] {
        Some(c) => c.len() as u64 >= max_bytes,
        None => false,
    };
    assert(needs == chain_needs_rotation(orig, max_bytes));

    if needs && max_files >= 2 {
        let mut i: usize = max_files as usize - 1;
        while i >= 1
            invariant
                max_files >= 2,
                n == orig.len(),
                max_files as int <= n,
                chain_needs_rotation(orig, max_bytes),
                i <= max_files - 1,
                slots.deep_view().len() == n,
                slots@.len() == n,
                forall|j: int| 0 <= j < i ==> slots.deep_view()[j] == orig[j],
                slots.deep_view()[i as int] == (if i + 1 < max_files && orig[i as int] is Some {
                    Option::<Seq<u8>>::None
                } else {
                    orig[i as int]
                }),
                forall|j: int|
                    i < j < max_files ==> slots.deep_view()[j] == rotated(orig, max_files)[j],
                forall|j: int| max_files <= j < n ==> slots.deep_view()[j] == orig[j],
            decreases i,
        {
            let ghost dv = slots.deep_view();
            let src_present = slots[i - 1].is_some();
            assert(src_present == (dv[i - 1] is Some));
            assert(dv[i - 1] == orig[i - 1]);
            if src_present {
                let taken = take_slot(slots, i - 1);
                assert(taken.deep_view() == orig[i - 1]);
                set_slot(slots, i, taken);
            }
            proof {
                let dvn = slots.deep_view();
                if src_present {
                    assert(dvn[i as int] == orig[i - 1]);
                    assert(rotated(orig, max_files)[i as int] == orig[i - 1]);
                } else if i + 1 < max_files {
                    assert(dvn[i as int] is None);
                    assert(rotated(orig, max_files)[i as int] is None);
                } else {
                    assert(dvn[i as int] == orig[i as int]);
                    assert(rotated(orig, max_files)[i as int] == orig[i as int]);
                }
            }
            i -= 1;
        }
        assert(slots.deep_view() =~= rotated(orig, max_files));
    } else {
        assert(needs ==> slots.deep_view() =~= rotated(orig, max_files));
    }

    let ghost mid = slots.deep_view();
    let live = take_slot(slots, 0);
    let ghost base = file_contents(mid[0]);
    let mut content: Vec<u8> = match live {
        Some(c) => c,
        None => Vec::new(),
    };
    assert(content.deep_view() =~= content@);
    assert(content@ == base);
    let mut j: usize = 0;
    while j < line.len()
        invariant
            j <= line.len(),
            content@ == base + line@.take(j as int),
        decreases line.len() - j,
    {
        content.push(line[j]);
        assert(content@ =~= base + line@.take(j + 1));
        j += 1;
    }
    content.push(NEWLINE_BYTE);
    assert(line@.take(line@.len() as int) =~= line@);
    assert(line@ =~= line.deep_view());
    assert(content@ =~= base + line.deep_view() + seq![NEWLINE_BYTE]);
    let filled = Some(content);
    assert(filled.deep_view() == appended_file(mid[0], line.deep_view()));
    set_slot(slots, 0, filled);
    assert(slots.deep_view() =~= chain_after_append(
        orig,
        line.deep_view(),
        max_bytes,
        max_files,
    ));
}

/// Below the threshold an append renames nothing: every slot but the live
/// one is unchanged, and the live file grows by exactly the line's length
/// plus one newline byte.
pub proof fn lemma_append_without_rotation(
    s: Seq<Option<Seq<u8>>>,
    line: Seq<u8>,
    max_bytes: u64,
    max_files: u32,
)
    requires
        s.len() >= 1,
        !chain_needs_rotation(s, max_bytes),
    ensures
        ({
            let r = chain_after_append(s, line, max_bytes, max_files);
            &&& r.len() == s.len()
            &&& forall|j: int| 1 <= j < s.len() ==> r[j] == s[j]
            &&& r[0] is Some
            &&& r[0].unwrap() == file_contents(s[0]) + line + seq![NEWLINE_BYTE]
            &&& file_len(r[0]) == file_len(s[0]) + line.len() + 1
        }),
{
}

/// Above the threshold an append rotates first: the live file's old
/// contents land in slot 1, each occupied slot `i - 1` lands in slot `i`,
/// a slot whose source was absent is left absent (or, for the very last
/// slot, untouched), the former occupant of the last slot is dropped, no
/// slot at `max_files` or beyond is touched, and the live file holds only
/// the new line.
pub proof fn lemma_append_with_rotation(
    s: Seq<Option<Seq<u8>>>,
    line: Seq<u8>,
    max_bytes: u64,
    max_files: u32,
)
    requires
        max_files >= 2,
        max_files as int <= s.len(),
        chain_needs_rotation(s, max_bytes),
    ensures
        ({
            let r = chain_after_append(s, line, max_bytes, max_files);
            &&& r.len() == s.len()
            &&& r[0] == Option::Some(line + seq![NEWLINE_BYTE])
            &&& r[1] == s[0]
            &&& forall|i: int|
                2 <= i < max_files ==> r[i] == (if s[i - 1] is Some {
                    s[i - 1]
                } else if i < max_files - 1 {
                    Option::<Seq<u8>>::None
                } else {
                    s[i]
                })
            &&& forall|j: int| max_files <= j < s.len() ==> r[j] == s[j]
        }),
{
    let r = chain_after_append(s, line, max_bytes, max_files);
    assert(rotated(s, max_files)[0] is None);
    assert(r[0] == Option::Some(line + seq![NEWLINE_BYTE])) by {
        assert(file_contents(rotated(s, max_files)[0]) + line =~= line);
    }
}

/// A chain with a single slot never rotates: even above the threshold the
/// renaming loop is empty, the live file keeps its old contents, and the
/// line is appended after them, so the live file can grow past
/// `max_bytes`.
pub proof fn lemma_single_slot_never_renames(
    s: Seq<Option<Seq<u8>>>,
    line: Seq<u8>,
    max_bytes: u64,
    max_files: u32,
)
    requires
        s.len() >= 1,
        max_files <= 1,
    ensures
        ({
            let r = chain_after_append(s, line, max_bytes, max_files);
            &&& r.len() == s.len()
            &&& forall|j: int| 1 <= j < s.len() ==> r[j] == s[j]
            &&& r[0] == Option::Some(file_contents(s[0]) + line + seq![NEWLINE_BYTE])
        }),
{
    if chain_needs_rotation(s, max_bytes) {
        assert(rotated(s, max_files) =~= s);
    }
}

/// The live file exists after every append, created if it was absent.
pub proof fn lemma_live_file_exists_after_append(
    s: Seq<Option<Seq<u8>>>,
    line: Seq<u8>,
    max_bytes: u64,
    max_files: u32,
)
    requires
        s.len() >= 1,
    ensures
        chain_after_append(s, line, max_bytes, max_files)[0] is Some,
{
}

/// Rotation is deterministic: equal pre-states run through an append with
/// equal arguments yield equal chains.
pub proof fn lemma_append_deterministic(
    s1: Seq<Option<Seq<u8>>>,
    s2: Seq<Option<Seq<u8>>>,
    line1: Seq<u8>,
    line2: Seq<u8>,
    max_bytes: u64,
    max_files: u32,
)
    requires
        s1 == s2,
        line1 == line2,
    ensures
        chain_after_append(s1, line1, max_bytes, max_files) == chain_after_append(
            s2,
            line2,
            max_bytes,
            max_files,
        ),
{
}

} // verus!
