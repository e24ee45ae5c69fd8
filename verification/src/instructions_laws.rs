//! What holds of assembled instructions as a whole.

use vstd::prelude::*;
use vstd::utf8::*;

use crate::instructions;
use crate::instructions::{Bounding, Entry, Origin, SavedEntry};
use crate::text;

verus! {

/// A text takes no bytes exactly if it is empty.
proof fn lemma_utf8_len_zero(s: Seq<char>)
    ensures
        text::utf8_len(s) == 0 <==> s.len() == 0,
{
    if s.len() > 0 {
        assert(s == seq![s[0]] + s.drop_first());
        text::lemma_utf8_len_concat(seq![s[0]], s.drop_first());
        instructions::lemma_one_char(s[0]);
    }
}

proof fn lemma_separator_takes_room(before: instructions::Origin, after: instructions::Origin)
    ensures
        text::utf8_len(instructions::separator(before, after)) > 0,
{
    reveal_strlit("\n\n--- project-doc ---\n\n");
    reveal_strlit("\n\n");
    lemma_utf8_len_zero(instructions::separator(before, after));
}

proof fn lemma_prefix_fits(s: Seq<char>, budget: nat)
    ensures
        text::utf8_len(instructions::prefix_within(s, budget)) <= budget,
    decreases s.len(),
{
    lemma_utf8_len_zero(s);
    if s.len() > 0 && text::utf8_len(s) > budget {
        lemma_prefix_fits(s.drop_last(), budget);
    }
}

/// A truncated text never takes more than the bytes it was given.
pub proof fn law_truncation_fits(contents: Seq<char>, max_bytes: nat)
    ensures
        text::utf8_len(instructions::truncated(contents, max_bytes)) <= max_bytes,
{
    let marker = instructions::USER_INSTRUCTIONS_TRUNCATION_MARKER@;
    if text::utf8_len(contents) > max_bytes {
        if max_bytes <= text::utf8_len(marker) {
            lemma_prefix_fits(marker, max_bytes);
        } else {
            let room = (max_bytes - text::utf8_len(marker)) as nat;
            lemma_prefix_fits(contents, room);
            text::lemma_utf8_len_concat(instructions::prefix_within(contents, room), marker);
        }
    }
}

proof fn lemma_rendered_push(kept: Seq<Entry>, e: Entry)
    ensures
        text::utf8_len(instructions::rendered(kept.push(e))) == text::utf8_len(
            instructions::rendered(kept),
        ) + (if kept.len() == 0 {
            0
        } else {
            text::utf8_len(instructions::separator(kept.last().origin, e.origin))
        }) + text::utf8_len(e.contents),
{
    assert(kept.push(e).drop_last() == kept);
    lemma_utf8_len_zero(Seq::empty());
    if kept.len() > 0 {
        let gap = instructions::separator(kept.last().origin, e.origin);
        text::lemma_utf8_len_concat(instructions::rendered(kept), gap);
        text::lemma_utf8_len_concat(instructions::rendered(kept) + gap, e.contents);
    }
}

proof fn lemma_bounding_fits(entries: Seq<Entry>, max_bytes: nat)
    ensures
        ({
            let b = instructions::bounding(entries, max_bytes);
            let used = text::utf8_len(instructions::rendered(b.kept));
            &&& used <= max_bytes
            &&& !b.full ==> used + b.remaining == max_bytes
        }),
    decreases entries.len(),
{
    lemma_utf8_len_zero(Seq::empty());
    if entries.len() > 0 {
        let b = instructions::bounding(entries.drop_last(), max_bytes);
        let e = entries.last();
        lemma_bounding_fits(entries.drop_last(), max_bytes);
        lemma_rendered_push(b.kept, e);
        let gap = if b.kept.len() == 0 {
            0
        } else {
            text::utf8_len(instructions::separator(b.kept.last().origin, e.origin))
        };
        if !b.full && gap <= b.remaining {
            let room = (b.remaining - gap) as nat;
            let cut = instructions::truncated(e.contents, room);
            law_truncation_fits(e.contents, room);
            lemma_rendered_push(b.kept, Entry { contents: cut, ..e });
        }
    }
}

/// However many entries there are and however long they are, the
/// model-visible text of bounded instructions stays within the budget.
pub proof fn law_text_stays_within_budget(entries: Seq<Entry>)
    ensures
        text::utf8_len(instructions::rendered(instructions::bounded(entries)))
            <= instructions::instruction_budget(),
{
    lemma_bounding_fits(entries, instructions::instruction_budget());
}

proof fn lemma_bounding_again(entries: Seq<Entry>, max_bytes: nat)
    ensures
        ({
            let b = instructions::bounding(entries, max_bytes);
            let again = instructions::bounding(b.kept, max_bytes);
            &&& again.kept == b.kept
            &&& !again.full
            &&& !b.full ==> again.remaining == b.remaining
        }),
    decreases entries.len(),
{
    if entries.len() > 0 {
        let before = instructions::bounding(entries.drop_last(), max_bytes);
        let b = instructions::bounding(entries, max_bytes);
        let e = entries.last();
        lemma_bounding_again(entries.drop_last(), max_bytes);
        let gap = if before.kept.len() == 0 {
            0
        } else {
            text::utf8_len(instructions::separator(before.kept.last().origin, e.origin))
        };
        if !before.full && gap <= before.remaining {
            law_truncation_fits(e.contents, (before.remaining - gap) as nat);
        }
        if b.kept.len() > before.kept.len() {
            assert(b.kept.drop_last() == before.kept);
        }
    }
}

/// Bounding what was bounded already changes nothing.
pub proof fn law_bounding_is_idempotent(entries: Seq<Entry>)
    ensures
        instructions::bounded(instructions::bounded(entries)) == instructions::bounded(entries),
{
    lemma_bounding_again(entries, instructions::instruction_budget());
}

proof fn lemma_fitting_entries(entries: Seq<Entry>, max_bytes: nat)
    requires
        text::utf8_len(instructions::rendered(entries)) <= max_bytes,
        entries.len() > 1 && entries.last().contents.len() == 0 ==> text::utf8_len(
            instructions::rendered(entries),
        ) < max_bytes,
    ensures
        instructions::bounding(entries, max_bytes) == (Bounding {
            kept: entries,
            remaining: (max_bytes - text::utf8_len(instructions::rendered(entries))) as nat,
            full: false,
        }),
    decreases entries.len(),
{
    lemma_utf8_len_zero(Seq::empty());
    if entries.len() > 0 {
        let front = entries.drop_last();
        let e = entries.last();
        assert(entries == front.push(e));
        lemma_rendered_push(front, e);
        lemma_utf8_len_zero(e.contents);
        if front.len() > 0 {
            lemma_separator_takes_room(front.last().origin, e.origin);
        }
        lemma_fitting_entries(front, max_bytes);
    } else {
        assert(entries =~= Seq::<Entry>::empty());
    }
}

/// Instructions whose text fits into the budget are left as they are.
///
/// The one exception is an empty last text whose separator would take the
/// very last byte.
pub proof fn law_fitting_instructions_are_kept(entries: Seq<Entry>)
    requires
        text::utf8_len(instructions::rendered(entries)) <= instructions::instruction_budget(),
        !(entries.len() > 1 && entries.last().contents.len() == 0 && text::utf8_len(
            instructions::rendered(entries),
        ) == instructions::instruction_budget()),
    ensures
        instructions::bounded(entries) == entries,
{
    lemma_fitting_entries(entries, instructions::instruction_budget());
}

proof fn lemma_bounding_prefix(entries: Seq<Entry>, max_bytes: nat)
    ensures
        ({
            let b = instructions::bounding(entries, max_bytes);
            &&& b.kept.len() <= entries.len()
            &&& !b.full ==> b.kept == entries
            &&& forall|i: int|
                #![trigger b.kept[i]]
                0 <= i < b.kept.len() ==> {
                    &&& b.kept[i].origin == entries[i].origin
                    &&& b.kept[i] == entries[i] || i == b.kept.len() - 1
                }
        }),
    decreases entries.len(),
{
    if entries.len() > 0 {
        let front = entries.drop_last();
        let before = instructions::bounding(front, max_bytes);
        let b = instructions::bounding(entries, max_bytes);
        lemma_bounding_prefix(front, max_bytes);
        assert(entries =~= front.push(entries.last()));
        assert forall|i: int| #![trigger b.kept[i]] 0 <= i < b.kept.len() implies {
            &&& b.kept[i].origin == entries[i].origin
            &&& b.kept[i] == entries[i] || i == b.kept.len() - 1
        } by {
            if i < before.kept.len() {
                assert(b.kept[i] == before.kept[i]);
                assert(front[i] == entries[i]);
                if b.kept.len() > before.kept.len() {
                    assert(before.kept == front);
                }
            }
        }
    } else {
        assert(entries =~= Seq::<Entry>::empty());
    }
}

/// Bounded instructions are the beginning of the instructions, in their order:
/// entries are dropped from the end, and only the last one that is left can be
/// cut short.
pub proof fn law_bounding_keeps_the_beginning(entries: Seq<Entry>)
    ensures
        ({
            let kept = instructions::bounded(entries);
            &&& kept.len() <= entries.len()
            &&& forall|i: int|
                #![trigger kept[i]]
                0 <= i < kept.len() ==> {
                    &&& kept[i].origin == entries[i].origin
                    &&& kept[i] == entries[i] || i == kept.len() - 1
                }
        }),
{
    lemma_bounding_prefix(entries, instructions::instruction_budget());
}

/// Restoring a snapshot gives the instructions that were saved, bounded.
pub proof fn law_snapshot_round_trip(entries: Seq<Entry>)
    ensures
        entries.map_values(|e: Entry| instructions::saved(e)).map_values(
            |s: SavedEntry| instructions::restored(s),
        ) == entries,
        instructions::bounded(entries) == entries ==> instructions::bounded(
            entries.map_values(|e: Entry| instructions::saved(e)).map_values(
                |s: SavedEntry| instructions::restored(s),
            ),
        ) == entries,
{
    assert(entries.map_values(|e: Entry| instructions::saved(e)).map_values(
        |s: SavedEntry| instructions::restored(s),
    ) =~= entries);
}

proof fn lemma_leading_globals_of_concat(globals: Seq<Entry>, rest: Seq<Entry>)
    requires
        forall|i: int| 0 <= i < globals.len() ==> (#[trigger] globals[i]).origin is Global,
    ensures
        instructions::leading_globals(globals + rest) == globals.len()
            + instructions::leading_globals(rest),
    decreases globals.len(),
{
    if globals.len() == 0 {
        assert(globals + rest == rest);
    } else {
        assert((globals + rest).drop_first() == globals.drop_first() + rest);
        assert((globals + rest)[0] == globals[0]);
        lemma_leading_globals_of_concat(globals.drop_first(), rest);
    }
}

proof fn lemma_after_leading_globals(entries: Seq<Entry>)
    ensures
        instructions::leading_globals(entries) <= entries.len(),
        instructions::leading_globals(
            entries.skip(instructions::leading_globals(entries) as int),
        ) == 0,
    decreases entries.len(),
{
    if entries.len() > 0 && entries[0].origin is Global {
        let rest = entries.drop_first();
        lemma_after_leading_globals(rest);
        assert(entries.skip(instructions::leading_globals(entries) as int) == rest.skip(
            instructions::leading_globals(rest) as int,
        ));
    } else {
        assert(entries.skip(0) == entries);
    }
}

/// Only the last replacement of the global instructions counts, and none of
/// them touches what follows the global instructions.
pub proof fn law_last_globals_win(
    entries: Seq<Entry>,
    earlier: Seq<Entry>,
    later: Seq<Entry>,
)
    requires
        forall|i: int| 0 <= i < earlier.len() ==> (#[trigger] earlier[i]).origin is Global,
    ensures
        instructions::with_globals(instructions::with_globals(entries, earlier), later)
            == instructions::with_globals(entries, later),
        instructions::with_globals(entries, later).skip(later.len() as int) == entries.skip(
            instructions::leading_globals(entries) as int,
        ),
{
    let rest = entries.skip(instructions::leading_globals(entries) as int);
    lemma_after_leading_globals(entries);
    lemma_leading_globals_of_concat(earlier, rest);
    assert((earlier + rest).skip(earlier.len() as int) == rest);
    assert((later + rest).skip(later.len() as int) == rest);
}

// ---------------------------------------------------------------------------
// What is cut, and where
// ---------------------------------------------------------------------------
/// The longest prefix within a budget, by the number of its characters.
proof fn lemma_prefix_is_longest(s: Seq<char>, budget: nat) -> (n: int)
    ensures
        0 <= n <= s.len(),
        instructions::prefix_within(s, budget) == s.take(n),
        text::utf8_len(s.take(n)) <= budget,
        n < s.len() ==> text::utf8_len(s.take(n + 1)) > budget,
    decreases s.len(),
{
    lemma_utf8_len_zero(s);
    if s.len() == 0 || text::utf8_len(s) <= budget {
        assert(s.take(s.len() as int) == s);
        s.len() as int
    } else {
        let t = s.drop_last();
        let n = lemma_prefix_is_longest(t, budget);
        assert(t.take(n) == s.take(n));
        if n < t.len() {
            assert(t.take(n + 1) == s.take(n + 1));
        } else {
            assert(s.take(n + 1) == s);
        }
        n
    }
}

/// A text that has to be cut keeps its beginning: the longest that leaves room for
/// the marker, which follows it. Where there is no room for more than the marker,
/// the marker itself is cut at its end.
pub proof fn law_truncation_keeps_the_beginning(contents: Seq<char>, max_bytes: nat)
    ensures
        ({
            let marker = "\n[instructions truncated]"@;
            let cut = instructions::truncated(contents, max_bytes);
            &&& text::utf8_len(contents) <= max_bytes ==> cut == contents
            &&& text::utf8_len(contents) > max_bytes && max_bytes <= marker.len() ==> cut
                == marker.take(max_bytes as int)
            &&& text::utf8_len(contents) > max_bytes && max_bytes > marker.len() ==> {
                let kept = cut.take(cut.len() - marker.len());
                &&& cut.len() >= marker.len()
                &&& cut == kept + marker
                &&& kept.is_prefix_of(contents)
                &&& kept.len() < contents.len()
                &&& text::utf8_len(kept) + marker.len() <= max_bytes
                &&& text::utf8_len(contents.take(kept.len() as int + 1)) + marker.len() > max_bytes
            }
        }),
{
    let marker = "\n[instructions truncated]"@;
    assert(instructions::USER_INSTRUCTIONS_TRUNCATION_MARKER@ == marker);
    reveal_strlit("\n[instructions truncated]");
    is_ascii_chars_encode_utf8(marker);
    assert(text::utf8_len(marker) == marker.len());
    if text::utf8_len(contents) > max_bytes {
        if max_bytes <= marker.len() {
            let n = lemma_prefix_is_longest(marker, max_bytes);
            is_ascii_chars_encode_utf8(marker.take(n));
            if n < marker.len() {
                is_ascii_chars_encode_utf8(marker.take(n + 1));
            }
        } else {
            let room = (max_bytes - marker.len()) as nat;
            let n = lemma_prefix_is_longest(contents, room);
            let cut = contents.take(n) + marker;
            assert(cut.take(cut.len() - marker.len()) == contents.take(n));
            assert(contents.take(contents.len() as int) == contents);
        }
    }
}

/// Appending an entry appends its text: alone at first, behind the project marker
/// where project instructions begin, and behind an empty line elsewhere.
pub proof fn law_text_goes_on(entries: Seq<Entry>, next: Entry)
    ensures
        ({
            let text = instructions::rendered(entries);
            instructions::rendered(entries.push(next)) == (if entries.len() == 0 {
                next.contents
            } else if next.origin is Project && !(entries.last().origin is Project) {
                text + "\n\n--- project-doc ---\n\n"@ + next.contents
            } else {
                text + "\n\n"@ + next.contents
            })
        }),
        instructions::rendered(Seq::empty()) == Seq::<char>::empty(),
{
    let longer = entries.push(next);
    assert(longer.drop_last() == entries);
    if entries.len() > 0 {
        assert(longer[longer.len() - 2] == entries.last());
    }
}

/// The sources are the paths of the entries that have one, in their order.
pub proof fn law_sources_go_on(entries: Seq<Entry>, next: Entry)
    ensures
        instructions::sources_of(entries.push(next)) == (match next.origin {
            Origin::Global(Some(path)) => instructions::sources_of(entries).push(path),
            Origin::Project(Some(path)) => instructions::sources_of(entries).push(path),
            _ => instructions::sources_of(entries),
        }),
        instructions::sources_of(Seq::empty()) == Seq::<Seq<char>>::empty(),
{
    assert(entries.push(next).drop_last() == entries);
}

/// A saved entry keeps its text, tells what kind of instructions it holds, and
/// names its file.
pub proof fn law_saved_entries_tell_their_origin(e: Entry)
    ensures
        ({
            let s = instructions::saved(e);
            &&& s.contents == e.contents
            &&& s.provenance is Global <==> e.origin is Global
            &&& s.provenance is Project <==> e.origin is Project
            &&& s.provenance is Internal <==> e.origin is Internal
            &&& s.source == (match e.origin {
                Origin::Global(path) => path,
                Origin::Project(path) => path,
                Origin::Internal => None,
            })
        }),
{
}

/// Replacing the global instructions puts the new ones in the place of the leading
/// global entries, all of them and no others.
pub proof fn law_globals_are_replaced_at_the_start(entries: Seq<Entry>, globals: Seq<Entry>, n: int)
    requires
        0 <= n <= entries.len(),
        forall|i: int| 0 <= i < n ==> (#[trigger] entries[i]).origin is Global,
        n < entries.len() ==> !(entries[n].origin is Global),
    ensures
        instructions::with_globals(entries, globals) == globals + entries.skip(n),
    decreases n,
{
    lemma_count_leading(entries, n);
}

proof fn lemma_count_leading(entries: Seq<Entry>, n: int)
    requires
        0 <= n <= entries.len(),
        forall|i: int| 0 <= i < n ==> (#[trigger] entries[i]).origin is Global,
        n < entries.len() ==> !(entries[n].origin is Global),
    ensures
        instructions::leading_globals(entries) == n,
    decreases n,
{
    if n > 0 {
        let rest = entries.drop_first();
        assert(entries[0].origin is Global);
        assert forall|i: int| 0 <= i < n - 1 implies (#[trigger] rest[i]).origin is Global by {
            assert(rest[i] == entries[i + 1]);
        }
        lemma_count_leading(rest, n - 1);
    }
}

/// The bytes that a text takes which goes on with an entry of the origin `next`.
pub open spec fn bytes_before(entries: Seq<Entry>, next: Origin) -> nat {
    text::utf8_len(instructions::rendered(entries)) + (if entries.len() == 0 {
        0
    } else if next is Project && !(entries.last().origin is Project) {
        text::utf8_len("\n\n--- project-doc ---\n\n"@)
    } else {
        text::utf8_len("\n\n"@)
    })
}

/// Where bounding stops.
proof fn lemma_stops(entries: Seq<Entry>, max_bytes: nat) -> (n: int)
    ensures
        0 <= n <= entries.len(),
        ({
            let b = instructions::bounding(entries, max_bytes);
            let whole = entries.take(n);
            &&& text::utf8_len(instructions::rendered(whole)) <= max_bytes
            &&& b.full <==> n < entries.len()
            &&& !b.full ==> b.kept == entries && b.remaining + text::utf8_len(
                instructions::rendered(entries),
            ) == max_bytes
            &&& b.full ==> {
                let e = entries[n];
                let used = bytes_before(whole, e.origin);
                if n > 0 && used >= max_bytes {
                    b.kept == whole
                } else {
                    let cut = instructions::truncated(e.contents, (max_bytes - used) as nat);
                    &&& used <= max_bytes
                    &&& used + text::utf8_len(e.contents) > max_bytes
                    &&& b.kept == (if cut.len() == 0 {
                        whole
                    } else {
                        whole.push(Entry { contents: cut, origin: e.origin })
                    })
                }
            }
        }),
    decreases entries.len(),
{
    lemma_utf8_len_zero(Seq::empty());
    if entries.len() == 0 {
        assert(entries.take(0) =~= entries);
        assert(entries =~= Seq::<Entry>::empty());
        0
    } else {
        let front = entries.drop_last();
        let n = lemma_stops(front, max_bytes);
        assert(front.take(n) =~= entries.take(n));
        let b = instructions::bounding(front, max_bytes);
        if b.full {
            assert(front[n] == entries[n]);
            n
        } else {
            let e = entries.last();
            assert(front.take(front.len() as int) =~= front);
            assert(entries =~= front.push(e));
            lemma_rendered_push(front, e);
            assert(entries.take(front.len() as int) =~= front);
            if instructions::bounding(entries, max_bytes).full {
                assert(entries[front.len() as int] == e);
                front.len() as int
            } else {
                assert(entries.take(entries.len() as int) =~= entries);
                entries.len() as int
            }
        }
    }
}

/// The text of more entries takes more bytes.
proof fn lemma_prefixes_grow(entries: Seq<Entry>, a: int, b: int)
    requires
        0 <= a <= b <= entries.len(),
    ensures
        text::utf8_len(instructions::rendered(entries.take(a))) <= text::utf8_len(
            instructions::rendered(entries.take(b)),
        ),
        0 < a < b ==> text::utf8_len(instructions::rendered(entries.take(a))) < text::utf8_len(
            instructions::rendered(entries.take(b)),
        ),
    decreases b - a,
{
    if a < b {
        let front = entries.take(b - 1);
        let e = entries[b - 1];
        lemma_prefixes_grow(entries, a, b - 1);
        assert(entries.take(b) =~= front.push(e));
        lemma_rendered_push(front, e);
        if b - 1 > 0 {
            lemma_separator_takes_room(front.last().origin, e.origin);
        } else {
            lemma_utf8_len_zero(Seq::empty());
            assert(front =~= Seq::<Entry>::empty());
        }
    }
}

proof fn lemma_bytes_before(entries: Seq<Entry>, e: Entry)
    ensures
        text::utf8_len(instructions::rendered(entries.push(e))) == bytes_before(entries, e.origin)
            + text::utf8_len(e.contents),
{
    lemma_rendered_push(entries, e);
}

/// Instructions that do not fit into 32000 bytes are cut where they stop fitting:
/// the entries before stay whole, and the first one that does not fit keeps what
/// there is room for behind its separator, marked, or nothing.
///
/// The one exception is an empty text whose separator takes the very last byte.
pub proof fn law_bounding_cuts_where_it_stops_fitting(entries: Seq<Entry>, n: int)
    requires
        0 <= n < entries.len(),
        text::utf8_len(instructions::rendered(entries.take(n))) <= 32_000,
        text::utf8_len(instructions::rendered(entries.take(n + 1))) > 32_000,
        n > 0 && entries[n - 1].contents.len() == 0 ==> text::utf8_len(
            instructions::rendered(entries.take(n)),
        ) < 32_000,
    ensures
        ({
            let kept = instructions::bounded(entries);
            let whole = entries.take(n);
            let used = bytes_before(whole, entries[n].origin);
            if used >= 32_000 {
                kept == whole
            } else {
                let cut = instructions::truncated(entries[n].contents, (32_000 - used) as nat);
                kept == whole.push(Entry { contents: cut, origin: entries[n].origin })
            }
        }),
{
    let m = lemma_stops(entries, 32_000);
    assert(instructions::instruction_budget() == 32_000);
    lemma_utf8_len_zero(Seq::empty());
    assert(entries.take(n + 1) =~= entries.take(n).push(entries[n]));
    lemma_bytes_before(entries.take(n), entries[n]);
    assert(entries.take(0) =~= Seq::<Entry>::empty());
    if m > n {
        lemma_prefixes_grow(entries, n + 1, m);
    } else if m < n {
        lemma_prefixes_grow(entries, m + 1, n);
        assert(entries.take(m + 1) =~= entries.take(m).push(entries[m]));
        lemma_bytes_before(entries.take(m), entries[m]);
        lemma_utf8_len_zero(entries[m].contents);
    }
    assert(m == n);
    let used = bytes_before(entries.take(n), entries[n].origin);
    if used < 32_000 {
        law_truncation_keeps_the_beginning(entries[n].contents, (32_000 - used) as nat);
        reveal_strlit("\n[instructions truncated]");
    }
}

/// What is left of an entry of bounded instructions is the entry, or its longest
/// beginning that fits with the marker behind it, or a beginning of the marker.
pub proof fn law_kept_entries_start_as_they_did(entries: Seq<Entry>, i: int)
    requires
        0 <= i < instructions::bounded(entries).len(),
    ensures
        ({
            let kept = instructions::bounded(entries)[i].contents;
            let marker = "\n[instructions truncated]"@;
            ||| kept == entries[i].contents
            ||| kept.is_prefix_of(marker)
            ||| exists|n: int|
                0 <= n < entries[i].contents.len() && kept == #[trigger] entries[i].contents.take(n)
                    + marker
        }),
{
    let n = lemma_stops(entries, instructions::instruction_budget());
    let kept = instructions::bounded(entries);
    let marker = "\n[instructions truncated]"@;
    if i < n {
        assert(kept[i] == entries.take(n)[i]);
    } else {
        let used = bytes_before(entries.take(n), entries[n].origin);
        let room = (instructions::instruction_budget() - used) as nat;
        law_truncation_keeps_the_beginning(entries[n].contents, room);
        let cut = instructions::truncated(entries[n].contents, room);
        if room > marker.len() {
            let start = cut.take(cut.len() - marker.len());
            assert(entries[i].contents.take(start.len() as int) == start);
        }
    }
}

/// Bounded instructions take at most 32000 bytes, and instructions that take less
/// are not touched.
pub proof fn law_budget_in_bytes(entries: Seq<Entry>)
    ensures
        text::utf8_len(instructions::rendered(instructions::bounded(entries))) <= 32_000,
        text::utf8_len(instructions::rendered(entries)) < 32_000 ==> instructions::bounded(entries)
            == entries,
{
    law_text_stays_within_budget(entries);
    if text::utf8_len(instructions::rendered(entries)) < 32_000 {
        law_fitting_instructions_are_kept(entries);
    }
}

/// A single text is kept with its origin unless it is nothing but white space.
pub proof fn law_single_texts(contents: Seq<char>, origin: Origin)
    ensures
        (forall|i: int| 0 <= i < contents.len() ==> text::is_space(#[trigger] contents[i]))
            ==> instructions::single(contents, origin).len() == 0,
        (exists|i: int| 0 <= i < contents.len() && !text::is_space(#[trigger] contents[i])) ==> {
            let entries = instructions::single(contents, origin);
            &&& entries.len() == 1
            &&& entries[0].contents == contents
            &&& entries[0].origin == origin
        },
{
}

} // verus!
