//! The source manager: the global offset space and position resolution.
//!
//! Every loaded file and every macro expansion becomes one [`SourceEntry`],
//! appended to a table that never shrinks. Each entry owns the half-open
//! range `[base, base + length)` of the global offset space; the ranges are
//! contiguous and in registration order, so any position can be traced back
//! to its entry by a binary search over the bases.

use vstd::prelude::*;
use crate::tracking::file::{FileManager, FileRef, FileView, cache_insert, contains_path,
    entry_at, resolve_spec};

verus! {

/// An opaque identifier related to a source entry in the [`SourceManager`].
#[derive(Clone, Copy, Debug, PartialEq, Eq, Structural)]
pub struct SourceId(pub(crate) u64);

impl View for SourceId {
    type V = int;

    closed spec fn view(&self) -> int {
        self.0 as int
    }
}

/// A position within the global offset space. Exchange this with the
/// [`SourceManager`] to retrieve information about the position.
///
/// Positions are ordered by their global offset, so diagnostics can be
/// sorted and containment can be tested without decoding. A position is
/// meaningful only to the manager that produced it.
#[derive(Clone, Copy, Debug, PartialEq, Eq, PartialOrd, Ord, Structural)]
pub struct SourcePos(pub(crate) u64);

impl View for SourcePos {
    type V = int;

    closed spec fn view(&self) -> int {
        self.0 as int
    }
}

/// A file entry, containing additional information for a loaded file.
pub struct FileEntry {
    /// The file whose text this entry covers.
    pub file_ref: FileRef,
    /// The position of the directive that pulled the file in, or `None`
    /// for the root file.
    pub include_pos: Option<SourcePos>,
}

/// An expansion entry, containing additional information for a macro
/// expansion.
pub struct ExpansionEntry {
    /// The name of the expanded macro.
    pub macro_name: String,
    /// Where the invocation that caused this expansion stands.
    pub expansion_site: SourcePos,
    /// Where the start of the replacement text is physically written.
    pub spelling_pos: SourcePos,
}

/// What a source entry covers: a file or a macro expansion.
pub enum EntryKind {
    File(FileEntry),
    Expansion(ExpansionEntry),
}

/// An entry in the [`SourceManager`], owning the half-open range
/// `[base, base + length)` of the global offset space.
pub struct SourceEntry {
    /// The cumulative offset before this entry was appended.
    pub base: u64,
    /// The length of this entry's text.
    pub length: u64,
    /// The file or expansion the entry stands for.
    pub kind: EntryKind,
}

/// Whether the entry's range contains the position.
pub open spec fn entry_contains(e: SourceEntry, pos: int) -> bool {
    e.base <= pos < e.base + e.length
}

/// Well-formedness of the entry at index `i`: its base continues the
/// previous entry's range exactly; a file entry is as long as its text; an
/// expansion entry points strictly backwards, at text that was registered
/// before it.
pub open spec fn entry_wf(entries: Seq<SourceEntry>, i: int) -> bool {
    &&& entries[i].base == if i == 0 {
        0int
    } else {
        entries[i - 1].base + entries[i - 1].length
    }
    &&& match entries[i].kind {
        EntryKind::File(fe) => entries[i].length == fe.file_ref@.content.len(),
        EntryKind::Expansion(xe) => {
            &&& xe.spelling_pos@ + entries[i].length <= entries[i].base
            &&& xe.expansion_site@ < entries[i].base
        },
    }
}

/// Well-formedness of the whole table: every entry continues the previous
/// one, and `total` is the cumulative offset after the last entry.
pub open spec fn entries_wf(entries: Seq<SourceEntry>, total: u64) -> bool {
    &&& forall|i: int| 0 <= i < entries.len() ==> entry_wf(entries, i)
    &&& if entries.len() == 0 {
        total == 0
    } else {
        total == entries.last().base + entries.last().length
    }
}

/// The sum of the lengths of the first `k` entries.
pub open spec fn length_sum(entries: Seq<SourceEntry>, k: int) -> int
    decreases k,
{
    if k <= 0 {
        0
    } else {
        length_sum(entries, k - 1) + entries[k - 1].length
    }
}

/// Appending an entry that starts at the old cumulative offset, keeps the
/// invariant of its kind, and advances the offset by its length preserves
/// well-formedness of the table.
proof fn lemma_push_preserves_wf(
    es: Seq<SourceEntry>,
    total: u64,
    nes: Seq<SourceEntry>,
    ntotal: u64,
)
    requires
        entries_wf(es, total),
        nes.len() == es.len() + 1,
        forall|i: int| 0 <= i < es.len() ==> nes[i] == es[i],
        nes.last().base == total,
        ntotal == total + nes.last().length,
        match nes.last().kind {
            EntryKind::File(fe) => nes.last().length == fe.file_ref@.content.len(),
            EntryKind::Expansion(xe) => {
                &&& xe.spelling_pos@ + nes.last().length <= total
                &&& xe.expansion_site@ < total
            },
        },
    ensures
        entries_wf(nes, ntotal),
{
    assert forall|i: int| 0 <= i < nes.len() implies entry_wf(nes, i) by {
        if i < es.len() {
            assert(entry_wf(es, i));
        }
    }
}

/// The index of the entry whose range contains the position.
pub open spec fn resolved_index(entries: Seq<SourceEntry>, pos: int) -> int {
    choose|i: int| 0 <= i < entries.len() && entry_contains(entries[i], pos)
}

/// In a well-formed table the ranges are ordered and non-overlapping: an
/// earlier entry ends no later than a later entry begins.
pub proof fn lemma_entries_ordered(es: Seq<SourceEntry>, total: u64, i: int, j: int)
    requires
        entries_wf(es, total),
        0 <= i < j < es.len(),
    ensures
        es[i].base + es[i].length <= es[j].base,
    decreases j - i,
{
    assert(entry_wf(es, j));
    if i + 1 < j {
        lemma_entries_ordered(es, total, i, j - 1);
    }
}

/// In a well-formed table every entry's range ends within the cumulative
/// offset.
pub proof fn lemma_entry_end_le_total(es: Seq<SourceEntry>, total: u64, i: int)
    requires
        entries_wf(es, total),
        0 <= i < es.len(),
    ensures
        es[i].base + es[i].length <= total,
    decreases es.len() - i,
{
    if i + 1 < es.len() {
        lemma_entry_end_le_total(es, total, i + 1);
        assert(entry_wf(es, i + 1));
    }
}

/// At most one entry's range contains a given position.
pub proof fn lemma_containing_entry_unique(
    es: Seq<SourceEntry>,
    total: u64,
    pos: int,
    i: int,
    j: int,
)
    requires
        entries_wf(es, total),
        0 <= i < es.len(),
        0 <= j < es.len(),
        entry_contains(es[i], pos),
        entry_contains(es[j], pos),
    ensures
        i == j,
{
    if i < j {
        lemma_entries_ordered(es, total, i, j);
    } else if j < i {
        lemma_entries_ordered(es, total, j, i);
    }
}

/// Where a position is physically written: the file entry and local offset
/// a position decodes to, following spelling links of expansion entries
/// until a file entry is reached. The links of a well-formed table point
/// strictly backwards, so the walk terminates; on a position no entry
/// contains, the result is arbitrary.
pub open spec fn spelling_location(es: Seq<SourceEntry>, pos: int) -> (int, int)
    decreases pos,
{
    let i = resolved_index(es, pos);
    if 0 <= i < es.len() && entry_contains(es[i], pos) {
        match es[i].kind {
            EntryKind::File(_) => (i, pos - es[i].base),
            EntryKind::Expansion(xe) => {
                let next = xe.spelling_pos@ + (pos - es[i].base);
                if 0 <= next < pos {
                    spelling_location(es, next)
                } else {
                    (i, pos - es[i].base)
                }
            },
        }
    } else {
        (0, 0)
    }
}

/// The number of line terminators in the first `o` characters of `s`.
pub open spec fn newline_count(s: Seq<char>, o: int) -> int
    decreases o,
{
    if o <= 0 {
        0
    } else {
        newline_count(s, o - 1) + if s[o - 1] == '\n' {
            1int
        } else {
            0int
        }
    }
}

/// The offset at which the line containing offset `o` starts: zero, or one
/// past the last line terminator before `o`.
pub open spec fn line_start(s: Seq<char>, o: int) -> int
    decreases o,
{
    if o <= 0 {
        0
    } else if s[o - 1] == '\n' {
        o
    } else {
        line_start(s, o - 1)
    }
}

/// The one-based line number of offset `o`: one more than the number of
/// line terminators before it.
pub open spec fn line_of(s: Seq<char>, o: int) -> int {
    1 + newline_count(s, o)
}

/// The one-based column of offset `o`: its distance from the start of its
/// line, plus one.
pub open spec fn col_of(s: Seq<char>, o: int) -> int {
    o - line_start(s, o) + 1
}

/// Compute the line and column of a character offset in a text.
///
/// This is the only place line and column semantics are defined: a line
/// ends at `'\n'`, lines and columns start at one.
pub fn line_column(text: &str, offset: usize) -> (r: (usize, usize))
    requires
        offset <= text@.len(),
        offset < usize::MAX,
    ensures
        r.0 == line_of(text@, offset as int),
        r.1 == col_of(text@, offset as int),
{
    let mut line: usize = 1;
    let mut column: usize = 1;
    let mut i: usize = 0;
    while i < offset
        invariant
            i <= offset <= text@.len(),
            offset < usize::MAX,
            line == line_of(text@, i as int),
            column == col_of(text@, i as int),
            line <= i + 1,
            1 <= column <= i + 1,
        decreases offset - i,
    {
        let c = text.get_char(i);
        if c == '\n' {
            line = line + 1;
            column = 1;
        } else {
            column = column + 1;
        }
        i += 1;
    }
    (line, column)
}

/// A decoded position: the file whose text contains it, the local character
/// offset inside that text, and the one-based line and column there.
pub struct Location {
    /// The file the position is physically written in.
    pub file: FileRef,
    /// The character offset within the file's content.
    pub offset: u64,
    /// The one-based line number.
    pub line: u64,
    /// The one-based column number.
    pub column: u64,
}

/// Maintains an ordered table of source entries over one global offset
/// space, allocates identifiers, and resolves positions back to entries.
pub struct SourceManager {
    file_manager: FileManager,
    /// Collection of source entries, indexed via their [`SourceId`].
    entries: Vec<SourceEntry>,
    /// Offset accumulated from the lengths of every source entry.
    cumulative_offset: u64,
}

impl SourceManager {
    /// The entry table, in registration order.
    pub closed spec fn entries(&self) -> Seq<SourceEntry> {
        self.entries@
    }

    /// The cumulative offset: the total length of all registered text.
    pub closed spec fn total_offset(&self) -> u64 {
        self.cumulative_offset
    }

    /// The file manager the source manager loads through.
    pub closed spec fn spec_file_manager(&self) -> FileManager {
        self.file_manager
    }

    /// The manager invariant: a well-formed entry table and file cache.
    pub open spec fn wf(&self) -> bool {
        &&& entries_wf(self.entries(), self.total_offset())
        &&& self.spec_file_manager().wf()
    }

    pub fn new(file_manager: FileManager) -> (r: Self)
        requires
            file_manager.wf(),
        ensures
            r.wf(),
            r.spec_file_manager() == file_manager,
            r.entries() == Seq::<SourceEntry>::empty(),
            r.total_offset() == 0,
    {
        let r = SourceManager { file_manager, entries: Vec::new(), cumulative_offset: 0 };
        proof {
            assert(r.entries() =~= Seq::<SourceEntry>::empty());
        }
        r
    }

    /// Retrieve the file manager of the source manager.
    pub fn file_manager(&self) -> (r: &FileManager)
        ensures
            *r == self.spec_file_manager(),
    {
        &self.file_manager
    }

    /// Hand freshly loaded text to the file manager's cache.
    ///
    /// This lets preprocessing logic that loads an included file fill the
    /// same cache the manager reads from. The cache policy is the file
    /// manager's: a path already present keeps its first content.
    pub fn insert_file(&mut self, path: &str, content: String) -> (r: FileRef)
        requires
            old(self).wf(),
        ensures
            final(self).wf(),
            final(self).entries() == old(self).entries(),
            final(self).total_offset() == old(self).total_offset(),
            final(self).spec_file_manager().spec_options() == old(
                self,
            ).spec_file_manager().spec_options(),
            ({
                let rp = resolve_spec(old(self).spec_file_manager().wd_view(), path@);
                let cache = old(self).spec_file_manager().cache();
                &&& final(self).spec_file_manager().cache() == cache_insert(cache, rp, content@)
                &&& r@ == if contains_path(cache, rp) {
                    entry_at(cache, rp)
                } else {
                    FileView { path: rp, content: content@ }
                }
            }),
    {
        self.file_manager.insert_file(path, content)
    }

    /// Create a new [`SourceId`] from a file reference.
    ///
    /// Appends a file entry whose range starts at the current cumulative
    /// offset and is as long as the file's text, and advances the offset by
    /// that length. Never fails: the load already happened elsewhere.
    pub fn create_source_id(&mut self, file_ref: FileRef, include_pos: Option<SourcePos>) -> (id:
        SourceId)
        requires
            old(self).wf(),
            old(self).total_offset() + file_ref@.content.len() <= u64::MAX,
        ensures
            final(self).wf(),
            id@ == old(self).entries().len(),
            final(self).entries() == old(self).entries().push(
                (SourceEntry {
                    base: old(self).total_offset(),
                    length: file_ref@.content.len() as u64,
                    kind: EntryKind::File(FileEntry { file_ref, include_pos }),
                }),
            ),
            final(self).total_offset() == old(self).total_offset() + file_ref@.content.len(),
            final(self).spec_file_manager() == old(self).spec_file_manager(),
    {
        let length = file_ref.content().unicode_len() as u64;
        let id = SourceId(self.entries.len() as u64);
        let entry = SourceEntry {
            base: self.cumulative_offset,
            length,
            kind: EntryKind::File(FileEntry { file_ref, include_pos }),
        };
        self.entries.push(entry);
        self.cumulative_offset = self.cumulative_offset + length;
        proof {
            lemma_push_preserves_wf(old(self).entries(), old(self).total_offset(), self.entries(),
                self.total_offset());
        }
        id
    }

    /// Create a new [`SourceId`] for a macro expansion.
    ///
    /// Appends an expansion entry of the given text length and advances the
    /// cumulative offset by it. The spelling range and the expansion site
    /// must already be registered text, so every chain of expansion links
    /// points strictly backwards and resolution terminates.
    pub fn create_expansion_id(
        &mut self,
        macro_name: String,
        expansion_site: SourcePos,
        spelling_pos: SourcePos,
        length: u64,
    ) -> (id: SourceId)
        requires
            old(self).wf(),
            expansion_site@ < old(self).total_offset(),
            spelling_pos@ + length <= old(self).total_offset(),
            old(self).total_offset() + length <= u64::MAX,
        ensures
            final(self).wf(),
            id@ == old(self).entries().len(),
            final(self).entries() == old(self).entries().push(
                (SourceEntry {
                    base: old(self).total_offset(),
                    length,
                    kind: EntryKind::Expansion(
                        ExpansionEntry { macro_name, expansion_site, spelling_pos },
                    ),
                }),
            ),
            final(self).total_offset() == old(self).total_offset() + length,
            final(self).spec_file_manager() == old(self).spec_file_manager(),
    {
        let id = SourceId(self.entries.len() as u64);
        let entry = SourceEntry {
            base: self.cumulative_offset,
            length,
            kind: EntryKind::Expansion(ExpansionEntry { macro_name, expansion_site, spelling_pos }),
        };
        self.entries.push(entry);
        self.cumulative_offset = self.cumulative_offset + length;
        proof {
            lemma_push_preserves_wf(old(self).entries(), old(self).total_offset(), self.entries(),
                self.total_offset());
        }
        id
    }

    /// The table index an identifier denotes, as a vector index.
    fn entry_index(&self, id: SourceId) -> (idx: usize)
        requires
            0 <= id@ < self.entries().len(),
        ensures
            idx as int == id@,
    {
        let n = self.entries.len();
        proof {
            assert(id.0 < n as u64);
        }
        id.0 as usize
    }

    /// Find the entry whose range contains the position, by binary search
    /// over the entry bases, and the position's local offset within it.
    pub fn resolve_entry(&self, pos: SourcePos) -> (r: (SourceId, u64))
        requires
            self.wf(),
            pos@ < self.total_offset(),
        ensures
            r.0@ == resolved_index(self.entries(), pos@),
            0 <= r.0@ < self.entries().len(),
            entry_contains(self.entries()[r.0@], pos@),
            r.1 == pos@ - self.entries()[r.0@].base,
    {
        let ghost es = self.entries();
        proof {
            assert(es.len() > 0);
            assert(entry_wf(es, 0));
        }
        let mut lo: usize = 0;
        let mut hi: usize = self.entries.len() - 1;
        while lo < hi
            invariant
                self.wf(),
                es == self.entries(),
                pos@ < self.total_offset(),
                lo <= hi < es.len(),
                es[lo as int].base <= pos@,
                hi + 1 < es.len() ==> pos@ < es[hi as int + 1].base,
            decreases hi - lo,
        {
            let mid = hi - (hi - lo) / 2;
            if self.entries[mid].base <= pos.0 {
                lo = mid;
            } else {
                hi = mid - 1;
            }
        }
        proof {
            if lo as int + 1 < es.len() {
                assert(entry_wf(es, lo as int + 1));
            }
            assert(entry_contains(es[lo as int], pos@));
            let w = resolved_index(es, pos@);
            assert(0 <= w < es.len() && entry_contains(es[w], pos@));
            lemma_containing_entry_unique(es, self.total_offset(), pos@, w, lo as int);
        }
        let base = self.entries[lo].base;
        (SourceId(lo as u64), pos.0 - base)
    }

    /// Resolve a position to where it is physically written: the file entry
    /// reached by following spelling links through any chain of expansion
    /// entries, and the local offset inside it.
    pub fn resolve_spelling(&self, pos: SourcePos) -> (r: (SourceId, u64))
        requires
            self.wf(),
            pos@ < self.total_offset(),
        ensures
            ({
                let (i, o) = spelling_location(self.entries(), pos@);
                &&& r.0@ == i
                &&& r.1 == o
                &&& 0 <= i < self.entries().len()
                &&& self.entries()[i].kind is File
                &&& entry_contains(self.entries()[i], self.entries()[i].base + o)
            }),
        decreases pos@,
    {
        let (id, local) = self.resolve_entry(pos);
        let idx = self.entry_index(id);
        match &self.entries[idx].kind {
            EntryKind::File(_) => (id, local),
            EntryKind::Expansion(xe) => {
                proof {
                    assert(entry_wf(self.entries(), id@));
                    lemma_entry_end_le_total(self.entries(), self.total_offset(), id@);
                }
                let next = SourcePos(xe.spelling_pos.0 + local);
                self.resolve_spelling(next)
            },
        }
    }

    /// Resolve a position to a full human location: the file it is
    /// physically written in, with local offset, line and column.
    pub fn resolve(&self, pos: SourcePos) -> (loc: Location)
        requires
            self.wf(),
            pos@ < self.total_offset(),
        ensures
            ({
                let (i, o) = spelling_location(self.entries(), pos@);
                self.entries()[i].kind matches EntryKind::File(fe) && loc.file@ == fe.file_ref@
                    && loc.offset == o && loc.line == line_of(fe.file_ref@.content, o)
                    && loc.column == col_of(fe.file_ref@.content, o)
            }),
    {
        let (id, local) = self.resolve_spelling(pos);
        let idx = self.entry_index(id);
        proof {
            assert(entry_wf(self.entries(), id@));
        }
        match &self.entries[idx].kind {
            EntryKind::File(fe) => {
                let content = fe.file_ref.content();
                let n = content.unicode_len();
                proof {
                    assert(local < n as u64);
                }
                let off = local as usize;
                let (line, column) = line_column(content, off);
                Location {
                    file: fe.file_ref.clone(),
                    offset: local,
                    line: line as u64,
                    column: column as u64,
                }
            },
            EntryKind::Expansion(_) => unreached(),
        }
    }

    /// Resolve a position to where it expands from: the site of the macro
    /// invocation when the position lies in an expansion entry, or `None`
    /// when it lies directly in a file. The site may itself lie in an
    /// enclosing expansion; repeated calls walk outwards and terminate,
    /// since every link points strictly backwards.
    pub fn expansion_site(&self, pos: SourcePos) -> (r: Option<SourcePos>)
        requires
            self.wf(),
            pos@ < self.total_offset(),
        ensures
            ({
                let i = resolved_index(self.entries(), pos@);
                match self.entries()[i].kind {
                    EntryKind::Expansion(xe) => r == Some(xe.expansion_site),
                    EntryKind::File(_) => r == None::<SourcePos>,
                }
            }),
    {
        let (id, _) = self.resolve_entry(pos);
        let idx = self.entry_index(id);
        match &self.entries[idx].kind {
            EntryKind::Expansion(xe) => Some(xe.expansion_site),
            EntryKind::File(_) => None,
        }
    }

    /// The global position of a local character offset within an entry.
    /// `entry_pos(id, 0)` is the base at which the entry's text begins.
    pub fn entry_pos(&self, id: SourceId, offset: u64) -> (pos: SourcePos)
        requires
            self.wf(),
            0 <= id@ < self.entries().len(),
            offset < self.entries()[id@].length,
        ensures
            pos@ == self.entries()[id@].base + offset,
    {
        proof {
            lemma_entry_end_le_total(self.entries(), self.total_offset(), id@);
        }
        let idx = self.entry_index(id);
        SourcePos(self.entries[idx].base + offset)
    }

    /// The cumulative offset: the total length of all registered text.
    pub fn cumulative_offset(&self) -> (r: u64)
        ensures
            r == self.total_offset(),
    {
        self.cumulative_offset
    }

    /// How many entries have been registered.
    pub fn entry_count(&self) -> (r: usize)
        ensures
            r == self.entries().len(),
    {
        self.entries.len()
    }

    /// Read an entry of the table.
    pub fn entry(&self, id: SourceId) -> (r: &SourceEntry)
        requires
            0 <= id@ < self.entries().len(),
        ensures
            *r == self.entries()[id@],
    {
        let idx = self.entry_index(id);
        &self.entries[idx]
    }
}

/// Offset monotonicity: the base offset of entry `k` equals the sum of the
/// lengths of the entries before it, so registering entries of lengths
/// `L1, L2, ...` yields the base offsets `0, L1, L1 + L2, ...`.
pub proof fn lemma_offset_monotonicity(m: SourceManager, k: int)
    requires
        m.wf(),
        0 <= k < m.entries().len(),
    ensures
        m.entries()[k].base == length_sum(m.entries(), k),
    decreases k,
{
    assert(entry_wf(m.entries(), k));
    if k > 0 {
        lemma_offset_monotonicity(m, k - 1);
    }
}

/// The cumulative offset is the sum of the lengths of all entries.
pub proof fn lemma_total_is_length_sum(m: SourceManager)
    requires
        m.wf(),
    ensures
        m.total_offset() == length_sum(m.entries(), m.entries().len() as int),
{
    if m.entries().len() > 0 {
        lemma_offset_monotonicity(m, m.entries().len() - 1);
    }
}

/// Resolution round-trip: for every entry and every local offset within its
/// range, the global position `base + o` resolves to exactly that entry,
/// and the local offset recovered from it is `o` again.
pub proof fn lemma_resolution_round_trip(m: SourceManager, k: int, o: int)
    requires
        m.wf(),
        0 <= k < m.entries().len(),
        0 <= o < m.entries()[k].length,
    ensures
        resolved_index(m.entries(), m.entries()[k].base + o) == k,
        m.entries()[k].base + o - m.entries()[resolved_index(
            m.entries(),
            m.entries()[k].base + o,
        )].base == o,
{
    let es = m.entries();
    let pos = es[k].base + o;
    assert(entry_contains(es[k], pos));
    let w = resolved_index(es, pos);
    assert(0 <= w < es.len() && entry_contains(es[w], pos));
    lemma_containing_entry_unique(es, m.total_offset(), pos, w, k);
}

/// The round-trip carried through to full resolution: a position inside a
/// file entry is spelled where it stands, so resolving `base + o` yields
/// the entry itself and the local offset `o` unchanged.
pub proof fn lemma_file_round_trip(m: SourceManager, k: int, o: int)
    requires
        m.wf(),
        0 <= k < m.entries().len(),
        0 <= o < m.entries()[k].length,
        m.entries()[k].kind is File,
    ensures
        spelling_location(m.entries(), m.entries()[k].base + o) == (k, o),
{
    lemma_resolution_round_trip(m, k, o);
}

/// Boundary position: a position exactly equal to the base of an entry with
/// text resolves to that entry at local offset zero — never to the end of
/// the entry before it.
pub proof fn lemma_boundary_position(m: SourceManager, k: int)
    requires
        m.wf(),
        0 <= k < m.entries().len(),
        m.entries()[k].length > 0,
    ensures
        resolved_index(m.entries(), m.entries()[k].base as int) == k,
{
    lemma_resolution_round_trip(m, k, 0);
}

} // verus!
