//! Assembly of model-visible instructions from `AGENTS.md` files.
//!
//! Instructions are an ordered list of texts with their provenance. Their
//! concatenation is bounded: what does not fit into the model's share of the
//! context is cut off and marked.

use vstd::prelude::*;
use vstd::utf8::*;

use crate::text;

verus! {

/// Default filename scanned for instructions.
pub const DEFAULT_AGENTS_MD_FILENAME: &'static str = "AGENTS.md";

/// Preferred local override for instructions.
pub const LOCAL_AGENTS_MD_FILENAME: &'static str = "AGENTS.override.md";

/// Separates the first project text from global or internal text before it.
pub const AGENTS_MD_SEPARATOR: &'static str = "\n\n--- project-doc ---\n\n";

/// Separates any other neighbours.
pub const ENTRY_SEPARATOR: &'static str = "\n\n";

pub const MAX_USER_INSTRUCTIONS_TOKENS: usize = 8_000;

pub const USER_INSTRUCTIONS_TRUNCATION_MARKER: &'static str = "\n[instructions truncated]";

/// How many bytes of text are taken for one token.
pub const APPROX_BYTES_PER_TOKEN: usize = 4;

/// Origin of an instruction text. Paths are absolute.
#[derive(Clone, Debug, PartialEq, Eq)]
pub enum InstructionProvenance {
    /// Global instructions, normally loaded from the Codex home directory.
    Global(Option<String>),
    /// Workspace instructions discovered from project files.
    Project(Option<String>),
    /// Instructions without a file source.
    Internal,
}

/// One model-visible instruction text and its provenance.
#[derive(Clone, Debug, PartialEq, Eq)]
pub struct InstructionEntry {
    pub contents: String,
    pub provenance: InstructionProvenance,
}

/// Model-visible instructions loaded from `AGENTS.md` files and internal guidance.
#[derive(Clone, Debug, PartialEq, Eq)]
pub struct LoadedAgentsMd {
    entries: Vec<InstructionEntry>,
}

/// The kind of provenance that a snapshot records.
#[derive(Clone, Copy, Debug, PartialEq, Eq)]
pub enum SnapshotProvenance {
    Global,
    Project,
    Internal,
}

/// One persisted instruction text.
#[derive(Clone, Debug, PartialEq, Eq)]
pub struct InstructionSnapshot {
    pub contents: String,
    pub provenance: SnapshotProvenance,
    pub source: Option<String>,
}

/// The persisted form of the instructions of a session.
#[derive(Clone, Debug, PartialEq, Eq)]
pub struct UserInstructionsSnapshot {
    pub instructions: Vec<InstructionSnapshot>,
}

// ---------------------------------------------------------------------------
// Models
// ---------------------------------------------------------------------------
/// The mathematical counterpart of [`InstructionProvenance`].
pub enum Origin {
    Global(Option<Seq<char>>),
    Project(Option<Seq<char>>),
    Internal,
}

/// The mathematical counterpart of [`InstructionEntry`].
pub struct Entry {
    pub contents: Seq<char>,
    pub origin: Origin,
}

/// The mathematical counterpart of [`InstructionSnapshot`].
pub struct SavedEntry {
    pub contents: Seq<char>,
    pub provenance: SnapshotProvenance,
    pub source: Option<Seq<char>>,
}

pub open spec fn path_of(p: Option<String>) -> Option<Seq<char>> {
    match p {
        Some(s) => Some(s@),
        None => None,
    }
}

impl View for InstructionProvenance {
    type V = Origin;

    open spec fn view(&self) -> Origin {
        match self {
            InstructionProvenance::Global(p) => Origin::Global(path_of(*p)),
            InstructionProvenance::Project(p) => Origin::Project(path_of(*p)),
            InstructionProvenance::Internal => Origin::Internal,
        }
    }
}

impl View for InstructionEntry {
    type V = Entry;

    open spec fn view(&self) -> Entry {
        Entry { contents: self.contents@, origin: self.provenance@ }
    }
}

pub open spec fn entries_of(v: Seq<InstructionEntry>) -> Seq<Entry> {
    v.map_values(|e: InstructionEntry| e@)
}

impl View for LoadedAgentsMd {
    type V = Seq<Entry>;

    closed spec fn view(&self) -> Seq<Entry> {
        entries_of(self.entries@)
    }
}

impl View for InstructionSnapshot {
    type V = SavedEntry;

    open spec fn view(&self) -> SavedEntry {
        SavedEntry {
            contents: self.contents@,
            provenance: self.provenance,
            source: path_of(self.source),
        }
    }
}

impl View for UserInstructionsSnapshot {
    type V = Seq<SavedEntry>;

    open spec fn view(&self) -> Seq<SavedEntry> {
        self.instructions@.map_values(|s: InstructionSnapshot| s@)
    }
}

// ---------------------------------------------------------------------------
// What the operations mean
// ---------------------------------------------------------------------------
/// The file an origin names.
pub open spec fn origin_path(o: Origin) -> Option<Seq<char>> {
    match o {
        Origin::Global(p) => p,
        Origin::Project(p) => p,
        Origin::Internal => None,
    }
}

/// The text between an entry with origin `before` and one with origin `after`.
///
/// The project marker tells the model where workspace instructions begin, so
/// it stands only on the transition to project instructions.
pub open spec fn separator(before: Origin, after: Origin) -> Seq<char> {
    if !(before is Project) && after is Project {
        AGENTS_MD_SEPARATOR@
    } else {
        ENTRY_SEPARATOR@
    }
}

/// The concatenated model-visible text.
pub open spec fn rendered(entries: Seq<Entry>) -> Seq<char>
    decreases entries.len(),
{
    if entries.len() == 0 {
        Seq::empty()
    } else if entries.len() == 1 {
        entries[0].contents
    } else {
        rendered(entries.drop_last()) + separator(
            entries[entries.len() - 2].origin,
            entries.last().origin,
        ) + entries.last().contents
    }
}

/// The files behind `entries`, in order.
pub open spec fn sources_of(entries: Seq<Entry>) -> Seq<Seq<char>>
    decreases entries.len(),
{
    if entries.len() == 0 {
        Seq::empty()
    } else {
        let before = sources_of(entries.drop_last());
        match origin_path(entries.last().origin) {
            Some(p) => before.push(p),
            None => before,
        }
    }
}

/// The longest prefix of `s` that encodes to at most `budget` bytes.
pub open spec fn prefix_within(s: Seq<char>, budget: nat) -> Seq<char>
    decreases s.len(),
{
    if s.len() == 0 || text::utf8_len(s) <= budget {
        s
    } else {
        prefix_within(s.drop_last(), budget)
    }
}

/// `s` if it fits into `max_bytes` bytes, else a prefix of it with the
/// truncation marker, or as much of the marker as fits.
pub open spec fn truncated(s: Seq<char>, max_bytes: nat) -> Seq<char> {
    let marker = USER_INSTRUCTIONS_TRUNCATION_MARKER@;
    if text::utf8_len(s) <= max_bytes {
        s
    } else if max_bytes <= text::utf8_len(marker) {
        prefix_within(marker, max_bytes)
    } else {
        prefix_within(s, (max_bytes - text::utf8_len(marker)) as nat) + marker
    }
}

/// How far the bounding of a list of entries has come.
pub struct Bounding {
    pub kept: Seq<Entry>,
    pub remaining: nat,
    pub full: bool,
}

/// Bounding continued with `e`.
pub open spec fn bound_next(b: Bounding, e: Entry) -> Bounding {
    if b.full {
        b
    } else {
        let gap = if b.kept.len() == 0 {
            0
        } else {
            text::utf8_len(separator(b.kept.last().origin, e.origin))
        };
        if b.kept.len() > 0 && gap >= b.remaining {
            Bounding { full: true, ..b }
        } else {
            let room = (b.remaining - gap) as nat;
            let size = text::utf8_len(e.contents);
            if size > room {
                let cut = truncated(e.contents, room);
                Bounding {
                    kept: if cut.len() == 0 {
                        b.kept
                    } else {
                        b.kept.push(Entry { contents: cut, ..e })
                    },
                    remaining: room,
                    full: true,
                }
            } else {
                Bounding { kept: b.kept.push(e), remaining: (room - size) as nat, full: false }
            }
        }
    }
}

/// Bounding of `entries` to `max_bytes` bytes.
pub open spec fn bounding(entries: Seq<Entry>, max_bytes: nat) -> Bounding
    decreases entries.len(),
{
    if entries.len() == 0 {
        Bounding { kept: Seq::empty(), remaining: max_bytes, full: false }
    } else {
        bound_next(bounding(entries.drop_last(), max_bytes), entries.last())
    }
}

/// The number of bytes that instructions may take.
pub open spec fn instruction_budget() -> nat {
    32_000
}

/// `entries` cut down to what instructions may take.
pub open spec fn bounded(entries: Seq<Entry>) -> Seq<Entry> {
    bounding(entries, instruction_budget()).kept
}

/// Whether all entries are white space.
pub open spec fn all_blank(entries: Seq<Entry>) -> bool {
    forall|i: int| 0 <= i < entries.len() ==> text::is_blank((#[trigger] entries[i]).contents)
}

/// The persisted form of an entry.
pub open spec fn saved(e: Entry) -> SavedEntry {
    SavedEntry {
        contents: e.contents,
        provenance: match e.origin {
            Origin::Global(_) => SnapshotProvenance::Global,
            Origin::Project(_) => SnapshotProvenance::Project,
            Origin::Internal => SnapshotProvenance::Internal,
        },
        source: origin_path(e.origin),
    }
}

/// The entry that a persisted form stands for.
pub open spec fn restored(s: SavedEntry) -> Entry {
    Entry {
        contents: s.contents,
        origin: match s.provenance {
            SnapshotProvenance::Global => Origin::Global(s.source),
            SnapshotProvenance::Project => Origin::Project(s.source),
            SnapshotProvenance::Internal => Origin::Internal,
        },
    }
}

/// The number of leading global entries.
pub open spec fn leading_globals(entries: Seq<Entry>) -> nat
    decreases entries.len(),
{
    if entries.len() > 0 && entries[0].origin is Global {
        leading_globals(entries.drop_first()) + 1
    } else {
        0
    }
}

/// `entries` with its leading global entries replaced by `globals`.
pub open spec fn with_globals(entries: Seq<Entry>, globals: Seq<Entry>) -> Seq<Entry> {
    globals + entries.skip(leading_globals(entries) as int)
}

/// A single text with its origin, or nothing if the text is blank.
pub open spec fn single(contents: Seq<char>, origin: Origin) -> Seq<Entry> {
    if text::is_blank(contents) {
        Seq::empty()
    } else {
        seq![Entry { contents, origin }]
    }
}

// ---------------------------------------------------------------------------
// Measuring and cutting
// ---------------------------------------------------------------------------
/// The number of bytes taken for `tokens` tokens.
pub fn approx_bytes_for_tokens(tokens: usize) -> (r: usize)
    ensures
        r == (if tokens * APPROX_BYTES_PER_TOKEN > usize::MAX {
            usize::MAX as int
        } else {
            tokens * APPROX_BYTES_PER_TOKEN
        }),
{
    match tokens.checked_mul(APPROX_BYTES_PER_TOKEN) {
        Some(n) => n,
        None => usize::MAX,
    }
}

fn byte_len(s: &str) -> (r: usize)
    ensures
        r == text::utf8_len(s@),
{
    s.as_bytes().len()
}

fn char_width(c: char) -> (r: usize)
    ensures
        r == text::utf8_len(seq![c]),
        1 <= r <= 4,
{
    let code: u32 = c as u32;
    proof {
        lemma_one_char(c);
    }
    if code <= 0x7f {
        1
    } else if code <= 0x7ff {
        2
    } else if code <= 0xffff {
        3
    } else {
        4
    }
}

pub proof fn lemma_one_char(c: char)
    ensures
        text::utf8_len(seq![c]) == encode_scalar(c as u32).len(),
{
    assert(seq![c].drop_first() == Seq::<char>::empty());
    assert(encode_utf8(seq![c].drop_first()) == Seq::<u8>::empty());
    assert(seq![c][0] == c);
}

proof fn lemma_len_push(s: Seq<char>, c: char)
    ensures
        text::utf8_len(s.push(c)) == text::utf8_len(s) + text::utf8_len(seq![c]),
{
    assert(s.push(c) == s + seq![c]);
    text::lemma_utf8_len_concat(s, seq![c]);
}

proof fn lemma_prefix_within(s: Seq<char>, budget: nat, n: int)
    requires
        0 <= n <= s.len(),
        text::utf8_len(s.take(n)) <= budget,
        n < s.len() ==> text::utf8_len(s.take(n + 1)) > budget,
    ensures
        prefix_within(s, budget) == s.take(n),
    decreases s.len(),
{
    if n == s.len() {
        assert(s.take(n) == s);
    } else {
        assert(s == s.take(n + 1) + s.skip(n + 1));
        text::lemma_utf8_len_concat(s.take(n + 1), s.skip(n + 1));
        let t = s.drop_last();
        assert(t.take(n) == s.take(n));
        if n < t.len() {
            assert(t.take(n + 1) == s.take(n + 1));
        }
        lemma_prefix_within(t, budget, n);
    }
}

/// How many leading characters of `s` encode to at most `budget` bytes.
fn prefix_length(s: &[char], budget: usize) -> (n: usize)
    ensures
        n <= s@.len(),
        s@.take(n as int) == prefix_within(s@, budget as nat),
{
    let mut n: usize = 0;
    let mut used: usize = 0;
    assert(encode_utf8(s@.take(0)) == Seq::<u8>::empty());
    while n < s.len()
        invariant
            n <= s.len(),
            used <= budget,
            used == text::utf8_len(s@.take(n as int)),
        decreases s.len() - n,
    {
        let width = char_width(s[n]);
        proof {
            assert(s@.take(n + 1) == s@.take(n as int).push(s@[n as int]));
            lemma_len_push(s@.take(n as int), s@[n as int]);
        }
        if width > budget - used {
            proof {
                lemma_prefix_within(s@, budget as nat, n as int);
            }
            return n;
        }
        used += width;
        n += 1;
    }
    proof {
        lemma_prefix_within(s@, budget as nat, n as int);
    }
    n
}

/// `contents` if it fits into `max_bytes` bytes, else a marked prefix of it.
pub fn truncate_instruction_contents(contents: &str, max_bytes: usize) -> (r: String)
    ensures
        r@ == truncated(contents@, max_bytes as nat),
{
    if byte_len(contents) <= max_bytes {
        return contents.to_owned();
    }
    let marker = text::chars_of(USER_INSTRUCTIONS_TRUNCATION_MARKER);
    let marker_len = byte_len(USER_INSTRUCTIONS_TRUNCATION_MARKER);
    if max_bytes <= marker_len {
        let n = prefix_length(&marker, max_bytes);
        let cut = text::part(&marker, 0, n);
        assert(cut@ == marker@.take(n as int));
        return text::string_of(&cut);
    }
    let chars = text::chars_of(contents);
    let n = prefix_length(&chars, max_bytes - marker_len);
    let mut cut = text::part(&chars, 0, n);
    assert(cut@ == chars@.take(n as int));
    text::append_chars(&mut cut, &marker);
    text::string_of(&cut)
}

// ---------------------------------------------------------------------------
// Provenance
// ---------------------------------------------------------------------------
fn copy_path(p: &Option<String>) -> (r: Option<String>)
    ensures
        path_of(r) == path_of(*p),
{
    match p {
        Some(s) => Some(s.clone()),
        None => None,
    }
}

impl InstructionProvenance {
    /// The file that the text came from.
    pub fn path(&self) -> (r: Option<&String>)
        ensures
            match r {
                Some(p) => origin_path(self@) == Some(p@),
                None => origin_path(self@) is None,
            },
    {
        match self {
            InstructionProvenance::Global(path) => path.as_ref(),
            InstructionProvenance::Project(path) => path.as_ref(),
            InstructionProvenance::Internal => None,
        }
    }

    fn is_project(&self) -> (r: bool)
        ensures
            r == (self@ is Project),
    {
        match self {
            InstructionProvenance::Project(_) => true,
            _ => false,
        }
    }

    fn is_global(&self) -> (r: bool)
        ensures
            r == (self@ is Global),
    {
        match self {
            InstructionProvenance::Global(_) => true,
            _ => false,
        }
    }
}

fn separator_between(
    before: &InstructionProvenance,
    after: &InstructionProvenance,
) -> (r: &'static str)
    ensures
        r@ == separator(before@, after@),
{
    if !before.is_project() && after.is_project() {
        AGENTS_MD_SEPARATOR
    } else {
        ENTRY_SEPARATOR
    }
}

// ---------------------------------------------------------------------------
// Instructions
// ---------------------------------------------------------------------------
impl Default for LoadedAgentsMd {
    fn default() -> (r: Self)
        ensures
            r@ == Seq::<Entry>::empty(),
    {
        let r = LoadedAgentsMd { entries: Vec::new() };
        assert(r@ =~= Seq::<Entry>::empty());
        r
    }
}

impl LoadedAgentsMd {
    /// Global instructions from the file at `path`.
    pub fn new_user(contents: String, path: String) -> (r: Self)
        ensures
            r@ == bounded(single(contents@, Origin::Global(Some(path@)))),
    {
        let chars = text::chars_of(contents.as_str());
        if text::blank(&chars) {
            let r = LoadedAgentsMd { entries: Vec::new() };
            assert(r@ =~= Seq::<Entry>::empty());
            return r;
        }
        let mut entries: Vec<InstructionEntry> = Vec::new();
        entries.push(
            InstructionEntry { contents, provenance: InstructionProvenance::Global(Some(path)) },
        );
        let mut loaded = LoadedAgentsMd { entries };
        assert(loaded@ =~= single(contents@, Origin::Global(Some(path@))));
        loaded.enforce_model_context_limit();
        loaded
    }

    /// A single text without a file source.
    pub fn from_text_for_testing(contents: &str) -> (r: Self)
        ensures
            r@ == single(contents@, Origin::Internal),
    {
        let chars = text::chars_of(contents);
        let mut entries: Vec<InstructionEntry> = Vec::new();
        if !text::blank(&chars) {
            entries.push(
                InstructionEntry {
                    contents: contents.to_owned(),
                    provenance: InstructionProvenance::Internal,
                },
            );
        }
        let r = LoadedAgentsMd { entries };
        assert(r@ =~= single(contents@, Origin::Internal));
        r
    }

    /// Appends one entry.
    pub fn push(&mut self, contents: String, provenance: InstructionProvenance)
        ensures
            final(self)@ == old(self)@.push(
                Entry { contents: contents@, origin: provenance@ },
            ),
    {
        self.entries.push(InstructionEntry { contents, provenance });
        assert(self@ =~= old(self)@.push(Entry { contents: contents@, origin: provenance@ }));
    }

    /// Appends all entries of `other`.
    pub fn extend(&mut self, other: LoadedAgentsMd)
        ensures
            final(self)@ == old(self)@ + other@,
    {
        let mut more = other.entries;
        self.entries.append(&mut more);
        assert(self@ =~= old(self)@ + other@);
    }

    /// Restores persisted instructions.
    pub fn from_snapshot(snapshot: &UserInstructionsSnapshot) -> (r: Self)
        ensures
            r@ == bounded(snapshot@.map_values(|s: SavedEntry| restored(s))),
    {
        let mut entries: Vec<InstructionEntry> = Vec::new();
        let mut i: usize = 0;
        let ghost wanted = snapshot@.map_values(|s: SavedEntry| restored(s));
        while i < snapshot.instructions.len()
            invariant
                i <= snapshot.instructions@.len(),
                wanted == snapshot@.map_values(|s: SavedEntry| restored(s)),
                entries_of(entries@) == wanted.take(i as int),
            decreases snapshot.instructions.len() - i,
        {
            let instruction: &InstructionSnapshot = &snapshot.instructions[i];
            let ghost before = entries@;
            entries.push(
                InstructionEntry {
                    contents: instruction.contents.clone(),
                    provenance: match instruction.provenance {
                        SnapshotProvenance::Global => InstructionProvenance::Global(
                            copy_path(&instruction.source),
                        ),
                        SnapshotProvenance::Project => InstructionProvenance::Project(
                            copy_path(&instruction.source),
                        ),
                        SnapshotProvenance::Internal => InstructionProvenance::Internal,
                    },
                },
            );
            i += 1;
            assert(entries_of(entries@) == entries_of(before).push(entries@.last()@));
            assert(entries_of(entries@) == wanted.take(i as int));
        }
        let mut loaded = LoadedAgentsMd { entries };
        assert(loaded@ == wanted);
        loaded.enforce_model_context_limit();
        loaded
    }

    /// The persisted form of these instructions.
    pub fn snapshot(&self) -> (r: UserInstructionsSnapshot)
        ensures
            r@ == self@.map_values(|e: Entry| saved(e)),
    {
        let mut instructions: Vec<InstructionSnapshot> = Vec::new();
        let ghost wanted = self@.map_values(|e: Entry| saved(e));
        let mut i: usize = 0;
        while i < self.entries.len()
            invariant
                i <= self.entries@.len(),
                wanted == self@.map_values(|e: Entry| saved(e)),
                instructions@.map_values(|s: InstructionSnapshot| s@) == wanted.take(i as int),
            decreases self.entries.len() - i,
        {
            let entry: &InstructionEntry = &self.entries[i];
            let ghost before = instructions@;
            let (provenance, source) = match &entry.provenance {
                InstructionProvenance::Global(path) => (
                    SnapshotProvenance::Global,
                    copy_path(path),
                ),
                InstructionProvenance::Project(path) => (
                    SnapshotProvenance::Project,
                    copy_path(path),
                ),
                InstructionProvenance::Internal => (SnapshotProvenance::Internal, None),
            };
            instructions.push(
                InstructionSnapshot { contents: entry.contents.clone(), provenance, source },
            );
            i += 1;
            assert(instructions@.map_values(|s: InstructionSnapshot| s@) == before.map_values(
                |s: InstructionSnapshot| s@,
            ).push(instructions@.last()@));
            assert(instructions@.map_values(|s: InstructionSnapshot| s@) == wanted.take(i as int));
        }
        let r = UserInstructionsSnapshot { instructions };
        assert(r@ == wanted);
        r
    }

    /// Replaces the leading global entries by those of `instructions`.
    pub fn replace_global(&mut self, instructions: LoadedAgentsMd)
        ensures
            final(self)@ == bounded(with_globals(old(self)@, instructions@)),
    {
        let mut first_non_global: usize = 0;
        while first_non_global < self.entries.len()
            && self.entries[first_non_global].provenance.is_global()
            invariant
                first_non_global <= self.entries@.len(),
                *self == *old(self),
                forall|k: int|
                    0 <= k < first_non_global ==> (#[trigger] self@[k]).origin is Global,
            decreases self.entries.len() - first_non_global,
        {
            assert(self@[first_non_global as int] == self.entries@[first_non_global as int]@);
            first_non_global += 1;
        }
        proof {
            if first_non_global < self.entries@.len() {
                assert(self@[first_non_global as int] == self.entries@[first_non_global as int]@);
            }
            lemma_leading_globals(self@, first_non_global as int);
        }
        let mut rest = self.entries.split_off(first_non_global);
        let mut entries = instructions.entries;
        let ghost globals = entries@;
        let ghost tail = rest@;
        entries.append(&mut rest);
        self.entries = entries;
        assert(self@ =~= instructions@ + old(self)@.skip(first_non_global as int));
        self.enforce_model_context_limit();
    }

    /// Whether there is nothing but white space.
    pub fn is_empty(&self) -> (r: bool)
        ensures
            r == all_blank(self@),
    {
        let mut i: usize = 0;
        while i < self.entries.len()
            invariant
                i <= self.entries@.len(),
                forall|k: int| 0 <= k < i ==> text::is_blank((#[trigger] self@[k]).contents),
            decreases self.entries.len() - i,
        {
            let chars = text::chars_of(self.entries[i].contents.as_str());
            assert(self@[i as int] == self.entries@[i as int]@);
            if !text::blank(&chars) {
                assert(!text::is_blank(self@[i as int].contents));
                return false;
            }
            i += 1;
        }
        true
    }

    /// The concatenated model-visible instruction text.
    pub fn text(&self) -> (r: String)
        ensures
            r@ == rendered(self@),
    {
        let mut output: String = String::new();
        let mut i: usize = 0;
        while i < self.entries.len()
            invariant
                i <= self.entries@.len(),
                output@ == rendered(self@.take(i as int)),
            decreases self.entries.len() - i,
        {
            proof {
                let next = self@.take(i + 1);
                assert(next.drop_last() == self@.take(i as int));
                assert(next.last() == self.entries@[i as int]@);
                if i > 0 {
                    assert(next[next.len() - 2] == self.entries@[i - 1]@);
                }
            }
            if i > 0 {
                output.append(
                    separator_between(&self.entries[i - 1].provenance, &self.entries[i].provenance),
                );
            }
            output.append(self.entries[i].contents.as_str());
            i += 1;
            assert(output@ == rendered(self@.take(i as int)));
        }
        assert(self@.take(self@.len() as int) == self@);
        output
    }

    /// The files that supplied instruction entries.
    pub fn sources(&self) -> (r: Vec<&String>)
        ensures
            r@.map_values(|p: &String| p@) == sources_of(self@),
    {
        let mut out: Vec<&String> = Vec::new();
        let mut i: usize = 0;
        assert(out@.map_values(|p: &String| p@) =~= sources_of(self@.take(0)));
        while i < self.entries.len()
            invariant
                i <= self.entries@.len(),
                out@.map_values(|p: &String| p@) == sources_of(self@.take(i as int)),
            decreases self.entries.len() - i,
        {
            let ghost before = out@;
            proof {
                let next = self@.take(i + 1);
                assert(next.drop_last() == self@.take(i as int));
                assert(next.last() == self.entries@[i as int]@);
            }
            match self.entries[i].provenance.path() {
                Some(path) => {
                    out.push(path);
                    assert(out@.map_values(|p: &String| p@) == before.map_values(
                        |p: &String| p@,
                    ).push(path@));
                },
                None => {},
            }
            i += 1;
        }
        assert(self@.take(self@.len() as int) == self@);
        out
    }

    /// Cuts the instructions down to what they may take of the model context.
    pub fn enforce_model_context_limit(&mut self)
        ensures
            final(self)@ == bounded(old(self)@),
    {
        let max_bytes = approx_bytes_for_tokens(MAX_USER_INSTRUCTIONS_TOKENS);
        let mut remaining_bytes: usize = max_bytes;
        let mut kept: Vec<InstructionEntry> = Vec::new();
        let mut entries: Vec<InstructionEntry> = Vec::new();
        std::mem::swap(&mut entries, &mut self.entries);
        let ghost all = entries_of(entries@);
        let mut full = false;
        let mut i: usize = 0;
        assert(entries_of(kept@) =~= Seq::<Entry>::empty());
        assert(all.take(0) =~= Seq::<Entry>::empty());
        while i < entries.len() && !full
            invariant
                i <= entries@.len(),
                all == entries_of(entries@),
                ({
                    let b = bounding(all.take(i as int), instruction_budget());
                    &&& b.kept == entries_of(kept@)
                    &&& b.remaining == remaining_bytes
                    &&& b.full == full
                }),
            decreases entries.len() - i,
        {
            let entry: &InstructionEntry = &entries[i];
            let ghost before = kept@;
            proof {
                let next = all.take(i + 1);
                assert(next.drop_last() == all.take(i as int));
                assert(next.last() == entry@);
                assert(entries_of(kept@).len() == kept@.len());
            }
            let mut room: usize = remaining_bytes;
            if kept.len() > 0 {
                let gap = byte_len(
                    separator_between(&kept[kept.len() - 1].provenance, &entry.provenance),
                );
                assert(entries_of(kept@).last() == kept@.last()@);
                if gap >= remaining_bytes {
                    full = true;
                } else {
                    room = remaining_bytes - gap;
                }
            }
            if !full {
                let size = byte_len(entry.contents.as_str());
                remaining_bytes = room;
                if size > room {
                    full = true;
                    let cut = truncate_instruction_contents(entry.contents.as_str(), room);
                    let cut_is_empty = cut.as_str().is_empty();
                    if !cut_is_empty {
                        kept.push(
                            InstructionEntry {
                                contents: cut,
                                provenance: entry.provenance.copy(),
                            },
                        );
                        assert(entries_of(kept@) == entries_of(before).push(kept@.last()@));
                    }
                } else {
                    remaining_bytes = room - size;
                    kept.push(
                        InstructionEntry {
                            contents: entry.contents.clone(),
                            provenance: entry.provenance.copy(),
                        },
                    );
                    assert(entries_of(kept@) == entries_of(before).push(kept@.last()@));
                }
            }
            i += 1;
        }
        proof {
            lemma_bounding_full(all, i as int);
        }
        self.entries = kept;
    }
}

impl InstructionProvenance {
    fn copy(&self) -> (r: Self)
        ensures
            r@ == self@,
    {
        match self {
            InstructionProvenance::Global(path) => InstructionProvenance::Global(copy_path(path)),
            InstructionProvenance::Project(path) => InstructionProvenance::Project(
                copy_path(path),
            ),
            InstructionProvenance::Internal => InstructionProvenance::Internal,
        }
    }
}

/// Once full, bounding takes nothing more.
proof fn lemma_bounding_full(entries: Seq<Entry>, i: int)
    requires
        0 <= i <= entries.len(),
        i == entries.len() || bounding(entries.take(i), instruction_budget()).full,
    ensures
        bounded(entries) == bounding(entries.take(i), instruction_budget()).kept,
    decreases entries.len() - i,
{
    if i == entries.len() {
        assert(entries.take(i) == entries);
    } else {
        let next = entries.take(i + 1);
        assert(next.drop_last() == entries.take(i));
        assert(next.last() == entries[i]);
        lemma_bounding_full(entries, i + 1);
    }
}

proof fn lemma_leading_globals(entries: Seq<Entry>, n: int)
    requires
        0 <= n <= entries.len(),
        forall|k: int| 0 <= k < n ==> (#[trigger] entries[k]).origin is Global,
        n < entries.len() ==> !(entries[n].origin is Global),
    ensures
        leading_globals(entries) == n,
    decreases n,
{
    if n > 0 {
        let rest = entries.drop_first();
        assert forall|k: int| 0 <= k < n - 1 implies (#[trigger] rest[k]).origin is Global by {
            assert(rest[k] == entries[k + 1]);
        }
        assert(entries[0].origin is Global);
        assert(n < entries.len() ==> rest[n - 1] == entries[n]);
        lemma_leading_globals(rest, n - 1);
    }
}

} // verus!
