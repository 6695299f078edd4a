use vstd::prelude::*;

use crate::bytes::{bytes_eq, copy_bytes};

verus! {

/// How eagerly the store looks at the filesystem when a caller has seen
/// everything the in-memory index holds.
#[derive(Debug, Clone, Copy, PartialEq, Eq, Structural)]
pub enum RefreshMode {
    /// Never look at the filesystem again once the store is initialized.
    Never,
    /// Look at the filesystem once every known index was searched.
    AfterAllIndicesLoaded,
}

/// The position a caller last observed: the index's generation and state id.
#[derive(Debug, Clone, Copy, PartialEq, Eq, Structural)]
pub struct SlotIndexMarker {
    /// Bumped when slot ids are reassigned; voids every slot id a caller knew.
    pub generation: u64,
    /// Bumped on every change of the index.
    pub state_id: u64,
}

/// A single pack: its index file and, once mapped, its data file.
/// Loaded resources are named by the token the loader gave them.
#[derive(Debug)]
pub struct IndexBundle {
    pub path: Vec<u8>,
    pub index: Option<u64>,
    pub data: Option<u64>,
}

/// A multi-pack index and the data files of the packs it covers.
#[derive(Debug)]
pub struct MultiIndexBundle {
    pub path: Vec<u8>,
    pub multi_index: Option<u64>,
    pub data: Vec<Option<u64>>,
}

/// What a populated slot holds.
#[derive(Debug)]
pub enum IndexAndPacks {
    Index(IndexBundle),
    MultiIndex(MultiIndexBundle),
}

/// A storage cell of fixed identity (its position), empty or populated.
#[derive(Debug)]
pub struct Slot {
    pub files: Option<IndexAndPacks>,
}

/// An index file found on disk; `index` is set where the scanner already
/// loaded the index.
#[derive(Debug)]
pub enum IndexFile {
    Single { path: Vec<u8>, index: Option<u64> },
    Multi { path: Vec<u8>, multi_index: Option<u64>, num_packs: usize },
}

/// What a scan of the object directories found: the index files, and the
/// object directories (the store's own first, then its alternates).
#[derive(Debug)]
pub struct DiskState {
    pub indices: Vec<IndexFile>,
    pub loose_dbs: Vec<Vec<u8>>,
}

/// The lookup descriptor of one loaded slot.
#[derive(Debug)]
pub enum SingleOrMultiIndex {
    Single { index: u64, data: Option<u64> },
    Multi { index: u64, data: Vec<Option<u64>> },
}

/// A loaded slot as a snapshot hands it out, with its slot id.
#[derive(Debug)]
pub struct IndexLookup {
    pub file: SingleOrMultiIndex,
    pub id: usize,
}

/// A point-in-time view of the store for one search: the loaded indices in
/// index order, the loose object directories, and the marker of the index it
/// was built from. It owns all it holds.
#[derive(Debug)]
pub struct Snapshot {
    pub indices: Vec<IndexLookup>,
    pub loose_dbs: Vec<Vec<u8>>,
    pub marker: SlotIndexMarker,
}

/// A new view for a caller.
#[derive(Debug)]
pub enum Outcome {
    /// Slot ids changed meaning: drop all that was known and search anew.
    Replace(Snapshot),
    /// Only additions happened: every slot id known before keeps its meaning.
    ReplaceStable(Snapshot),
}

/// What `load_next_indices` decided.
#[derive(Debug)]
pub enum Next {
    /// The answer, from memory alone; `None` means there is nothing new.
    Done(Option<Outcome>),
    /// The filesystem must be scanned, and the result handed to
    /// `consolidate_with_disk_state` together with this state id.
    ScanDisk(u64),
}

/// Why a consolidation did not take place.
#[derive(Debug, Clone, Copy, PartialEq, Eq, Structural)]
pub enum Error {
    /// The index changed since the caller decided to scan: decide anew.
    StateChanged,
    /// The state id or generation counter cannot grow any further.
    Exhausted,
}

/// A caller's cursor: its last marker, and whether it relies on slot ids
/// keeping their meaning.
#[derive(Debug, Clone, Copy)]
pub struct Handle {
    pub marker: Option<SlotIndexMarker>,
    pub requires_stable_ids: bool,
}

impl Handle {
    /// Remembers the marker of a snapshot this handle obtained.
    pub fn observe(&mut self, snapshot: &Snapshot)
        ensures
            final(self).marker == Some(snapshot.marker),
            final(self).requires_stable_ids == old(self).requires_stable_ids,
    {
        self.marker = Some(snapshot.marker);
    }
}

/// The authoritative description of the store's composition: the slot ids of
/// the populated slots in order, the loose object directories, and the
/// generation and state id it belongs to.
#[derive(Debug)]
pub struct Index {
    slot_indices: Vec<usize>,
    loose_dbs: Vec<Vec<u8>>,
    generation: u64,
    state_id: u64,
    initialized: bool,
}

/// The slots, the current index, and the counts of live handles.
#[derive(Debug)]
pub struct Store {
    files: Vec<Slot>,
    index: Index,
    num_handles: usize,
    num_handles_stable: usize,
    num_disk_state_consolidation: u64,
}

/// A populated slot: whether it is a multi-pack index, its path, the token of
/// its loaded index, and the tokens of its packs' data (one for a single pack).
pub struct SlotView {
    pub multi: bool,
    pub path: Seq<u8>,
    pub index: Option<u64>,
    pub data: Seq<Option<u64>>,
}

/// An index file on disk, with the number of packs it covers.
pub struct DiskFileView {
    pub multi: bool,
    pub path: Seq<u8>,
    pub index: Option<u64>,
    pub num_packs: nat,
}

/// A disk scan: its index files and its object directories.
pub struct DiskView {
    pub indices: Seq<DiskFileView>,
    pub loose_dbs: Seq<Seq<u8>>,
}

/// A lookup: slot id, kind, token of the loaded index, tokens of pack data.
pub struct LookupView {
    pub id: usize,
    pub multi: bool,
    pub index: u64,
    pub data: Seq<Option<u64>>,
}

/// A snapshot: its lookups, its loose object directories and its marker.
pub struct SnapshotView {
    pub indices: Seq<LookupView>,
    pub loose_dbs: Seq<Seq<u8>>,
    pub marker: SlotIndexMarker,
}

/// The store as a value: slots (`None` when empty), the index, and counters.
pub struct StoreView {
    pub slots: Seq<Option<SlotView>>,
    pub slot_indices: Seq<usize>,
    pub loose_dbs: Seq<Seq<u8>>,
    pub generation: u64,
    pub state_id: u64,
    pub initialized: bool,
    pub num_handles: usize,
    pub num_handles_stable: usize,
    pub num_consolidations: u64,
}

/// The contents of a list of byte strings.
pub open spec fn byte_lists(v: Seq<Vec<u8>>) -> Seq<Seq<u8>> {
    v.map_values(|b: Vec<u8>| b@)
}

impl View for IndexAndPacks {
    type V = SlotView;

    open spec fn view(&self) -> SlotView {
        match self {
            IndexAndPacks::Index(b) => SlotView {
                multi: false,
                path: b.path@,
                index: b.index,
                data: seq![b.data],
            },
            IndexAndPacks::MultiIndex(m) => SlotView {
                multi: true,
                path: m.path@,
                index: m.multi_index,
                data: m.data@,
            },
        }
    }
}

impl View for Slot {
    type V = Option<SlotView>;

    open spec fn view(&self) -> Option<SlotView> {
        match self.files {
            Some(f) => Some(f@),
            None => None,
        }
    }
}

impl View for IndexFile {
    type V = DiskFileView;

    open spec fn view(&self) -> DiskFileView {
        match self {
            IndexFile::Single { path, index } => DiskFileView {
                multi: false,
                path: path@,
                index: *index,
                num_packs: 1,
            },
            IndexFile::Multi { path, multi_index, num_packs } => DiskFileView {
                multi: true,
                path: path@,
                index: *multi_index,
                num_packs: *num_packs as nat,
            },
        }
    }
}

impl View for DiskState {
    type V = DiskView;

    open spec fn view(&self) -> DiskView {
        DiskView {
            indices: self.indices@.map_values(|f: IndexFile| f@),
            loose_dbs: byte_lists(self.loose_dbs@),
        }
    }
}

impl View for IndexLookup {
    type V = LookupView;

    open spec fn view(&self) -> LookupView {
        match self.file {
            SingleOrMultiIndex::Single { index, data } => LookupView {
                id: self.id,
                multi: false,
                index,
                data: seq![data],
            },
            SingleOrMultiIndex::Multi { index, data } => LookupView {
                id: self.id,
                multi: true,
                index,
                data: data@,
            },
        }
    }
}

impl View for Snapshot {
    type V = SnapshotView;

    open spec fn view(&self) -> SnapshotView {
        SnapshotView {
            indices: self.indices@.map_values(|l: IndexLookup| l@),
            loose_dbs: byte_lists(self.loose_dbs@),
            marker: self.marker,
        }
    }
}

impl View for Store {
    type V = StoreView;

    closed spec fn view(&self) -> StoreView {
        StoreView {
            slots: self.files@.map_values(|s: Slot| s@),
            slot_indices: self.index.slot_indices@,
            loose_dbs: byte_lists(self.index.loose_dbs@),
            generation: self.index.generation,
            state_id: self.index.state_id,
            initialized: self.index.initialized,
            num_handles: self.num_handles,
            num_handles_stable: self.num_handles_stable,
            num_consolidations: self.num_disk_state_consolidation,
        }
    }
}

impl StoreView {
    /// Every slot id of the index names a populated slot, an uninitialized
    /// store has no slots, and stable handles are among the live ones.
    pub open spec fn wf(self) -> bool {
        &&& forall|j: int|
            0 <= j < self.slot_indices.len() ==> #[trigger] self.slot_indices[j] < self.slots.len()
                && self.slots[self.slot_indices[j] as int] is Some
        &&& !self.initialized ==> self.slots.len() == 0 && self.slot_indices.len() == 0
        &&& self.num_handles_stable <= self.num_handles
    }
}

/// The marker of the index of `m`.
pub open spec fn marker_of(m: StoreView) -> SlotIndexMarker {
    SlotIndexMarker { generation: m.generation, state_id: m.state_id }
}

/// The lookup of slot `id`, if the slot is populated and its index loaded.
pub open spec fn lookup_of(m: StoreView, id: usize) -> Option<LookupView> {
    if id < m.slots.len() && m.slots[id as int] is Some && m.slots[id as int].unwrap().index is Some {
        let s = m.slots[id as int].unwrap();
        Some(LookupView { id, multi: s.multi, index: s.index.unwrap(), data: s.data })
    } else {
        None
    }
}

/// The lookups of the loaded slots among `ids`, in order.
pub open spec fn lookups(m: StoreView, ids: Seq<usize>) -> Seq<LookupView>
    decreases ids.len(),
{
    if ids.len() == 0 {
        seq![]
    } else {
        let rest = lookups(m, ids.drop_last());
        match lookup_of(m, ids.last()) {
            Some(l) => rest.push(l),
            None => rest,
        }
    }
}

/// The snapshot of the current index of `m`.
pub open spec fn snapshot_of(m: StoreView) -> SnapshotView {
    SnapshotView { indices: lookups(m, m.slot_indices), loose_dbs: m.loose_dbs, marker: marker_of(m) }
}

/// What a caller holding `marker` is owed.
pub enum Decision {
    Stop,
    ScanDisk,
    Replace,
    ReplaceStable,
}

/// What `load_next_indices` owes a caller that last saw `marker`.
pub open spec fn decide(m: StoreView, mode: RefreshMode, marker: Option<SlotIndexMarker>) -> Decision {
    if !m.initialized {
        Decision::ScanDisk
    } else {
        match marker {
            None => Decision::Replace,
            Some(k) => if k.generation != m.generation {
                Decision::Replace
            } else if k.state_id == m.state_id {
                match mode {
                    RefreshMode::Never => Decision::Stop,
                    RefreshMode::AfterAllIndicesLoaded => Decision::ScanDisk,
                }
            } else {
                Decision::ReplaceStable
            },
        }
    }
}

/// `o` is the outcome of kind `stable` carrying snapshot `s`.
pub open spec fn outcome_is(o: Outcome, stable: bool, s: SnapshotView) -> bool {
    match o {
        Outcome::Replace(x) => !stable && x@ == s,
        Outcome::ReplaceStable(x) => stable && x@ == s,
    }
}

/// Whether the slot content `s` is the index file `e`.
pub open spec fn same_file(s: SlotView, e: DiskFileView) -> bool {
    s.multi == e.multi && s.path == e.path
}

/// The first slot id of the index, from position `j` on, whose slot holds `e`.
pub open spec fn known_from(m: StoreView, e: DiskFileView, j: int) -> Option<usize>
    decreases m.slot_indices.len() - j,
{
    if j < 0 || j >= m.slot_indices.len() {
        None
    } else {
        let id = m.slot_indices[j];
        if id < m.slots.len() && m.slots[id as int] is Some && same_file(m.slots[id as int].unwrap(), e) {
            Some(id)
        } else {
            known_from(m, e, j + 1)
        }
    }
}

/// Whether the index of `m` already holds the file `e`.
pub open spec fn known(m: StoreView, e: DiskFileView) -> bool {
    known_from(m, e, 0) is Some
}

/// Whether a populated slot holds a file that is among `disk`.
pub open spec fn on_disk(s: SlotView, disk: Seq<DiskFileView>) -> bool {
    exists|i: int| 0 <= i < disk.len() && same_file(s, #[trigger] disk[i])
}

/// Whether a file of the index of `m` is gone from `disk`.
pub open spec fn has_vanished(m: StoreView, disk: Seq<DiskFileView>) -> bool {
    exists|j: int|
        0 <= j < m.slot_indices.len() && !on_disk(#[trigger] m.slots[m.slot_indices[j] as int].unwrap(), disk)
}

/// The files of `disk` that the index of `m` does not hold yet, in order.
pub open spec fn additions(m: StoreView, disk: Seq<DiskFileView>) -> Seq<DiskFileView>
    decreases disk.len(),
{
    if disk.len() == 0 {
        seq![]
    } else {
        let rest = additions(m, disk.drop_last());
        if known(m, disk.last()) {
            rest
        } else {
            rest.push(disk.last())
        }
    }
}

/// A slot for the newly found file `e`: its index as the scan left it, no
/// pack data mapped.
pub open spec fn fresh_slot(e: DiskFileView) -> SlotView {
    SlotView { multi: e.multi, path: e.path, index: e.index, data: Seq::new(e.num_packs, |i: int| None) }
}

/// The slot for `e` after a reorganization: what the store held for it, or a
/// fresh one.
pub open spec fn carried(m: StoreView, e: DiskFileView) -> SlotView {
    match known_from(m, e, 0) {
        Some(id) => m.slots[id as int].unwrap(),
        None => fresh_slot(e),
    }
}

/// Whether consolidating with `disk` reassigns slot ids: files of the index
/// vanished and no handle relies on slot ids. While one does, vanished files
/// keep their slots.
pub open spec fn will_reorganize(m: StoreView, disk: DiskView) -> bool {
    has_vanished(m, disk.indices) && m.num_handles_stable == 0
}

/// Whether consolidating with `disk` changes the index.
pub open spec fn changes(m: StoreView, disk: DiskView) -> bool {
    !m.initialized || will_reorganize(m, disk) || additions(m, disk.indices).len() > 0
        || m.loose_dbs != disk.loose_dbs
}

/// Whether the counters cannot take the change.
pub open spec fn exhausted(m: StoreView, disk: DiskView) -> bool {
    m.state_id == u64::MAX || (will_reorganize(m, disk) && m.generation == u64::MAX)
}

/// `m` with one more consolidation counted.
pub open spec fn counted(m: StoreView) -> StoreView {
    StoreView {
        num_consolidations: if m.num_consolidations < u64::MAX {
            (m.num_consolidations + 1) as u64
        } else {
            m.num_consolidations
        },
        ..m
    }
}

/// The store after a consolidation with `disk` that changes it. Without a
/// reorganization, new files get new slots after the existing ones and the
/// generation stays; with one, slot `i` holds the `i`-th file and the
/// generation grows.
pub open spec fn consolidated(m: StoreView, disk: DiskView) -> StoreView {
    let c = counted(m);
    if will_reorganize(m, disk) {
        StoreView {
            slots: disk.indices.map_values(|e: DiskFileView| Some(carried(m, e))),
            slot_indices: Seq::new(disk.indices.len(), |i: int| i as usize),
            loose_dbs: disk.loose_dbs,
            generation: (m.generation + 1) as u64,
            state_id: (m.state_id + 1) as u64,
            initialized: true,
            ..c
        }
    } else {
        let add = additions(m, disk.indices);
        StoreView {
            slots: m.slots + add.map_values(|e: DiskFileView| Some(fresh_slot(e))),
            slot_indices: m.slot_indices + Seq::new(add.len(), |k: int| (m.slots.len() + k) as usize),
            loose_dbs: disk.loose_dbs,
            generation: m.generation,
            state_id: (m.state_id + 1) as u64,
            initialized: true,
            ..c
        }
    }
}

/// `m` after registering a handle, up to the counter's limit.
pub open spec fn after_register(m: StoreView, stable: bool) -> StoreView {
    if m.num_handles < usize::MAX {
        StoreView {
            num_handles: (m.num_handles + 1) as usize,
            num_handles_stable: if stable {
                (m.num_handles_stable + 1) as usize
            } else {
                m.num_handles_stable
            },
            ..m
        }
    } else {
        m
    }
}

/// `m` after deregistering a handle. The counts never drop below zero, and
/// the stable handles stay among the live ones even where the handle was
/// not counted as this store's.
pub open spec fn after_deregister(m: StoreView, stable: bool) -> StoreView {
    StoreView {
        num_handles: if m.num_handles > 0 {
            (m.num_handles - 1) as usize
        } else {
            0
        },
        num_handles_stable: if m.num_handles_stable > 0 && (stable || m.num_handles_stable == m.num_handles) {
            (m.num_handles_stable - 1) as usize
        } else {
            m.num_handles_stable
        },
        ..m
    }
}

/// Whether `b` is a later state of the store than `a`: the generation and
/// the state id never go back.
pub open spec fn advances(a: StoreView, b: StoreView) -> bool {
    a.generation <= b.generation && a.state_id <= b.state_id
}

/// Within one generation, every slot id of `a`'s index stays in the index,
/// holds the same file, and keeps a loaded index.
pub open spec fn retains(a: StoreView, b: StoreView) -> bool {
    a.generation == b.generation ==> forall|j: int|
        0 <= j < a.slot_indices.len() ==> {
            let id = #[trigger] a.slot_indices[j];
            &&& b.slot_indices.contains(id)
            &&& id < b.slots.len() && b.slots[id as int] is Some
            &&& b.slots[id as int].unwrap().multi == a.slots[id as int].unwrap().multi
            &&& b.slots[id as int].unwrap().path == a.slots[id as int].unwrap().path
            &&& (a.slots[id as int].unwrap().index is Some ==> b.slots[id as int].unwrap().index
                == a.slots[id as int].unwrap().index)
        }
}


/// A copy of a list of pack-data tokens.
fn copy_tokens(v: &Vec<Option<u64>>) -> (r: Vec<Option<u64>>)
    ensures
        r@ == v@,
{
    let mut r: Vec<Option<u64>> = Vec::with_capacity(v.len());
    let mut i: usize = 0;
    while i < v.len()
        invariant
            i <= v@.len(),
            r@ == v@.subrange(0, i as int),
        decreases v@.len() - i,
    {
        r.push(v[i]);
        i += 1;
        assert(r@ =~= v@.subrange(0, i as int));
    }
    assert(r@ =~= v@);
    r
}

/// A copy of a list of byte strings.
fn copy_byte_lists(v: &Vec<Vec<u8>>) -> (r: Vec<Vec<u8>>)
    ensures
        byte_lists(r@) == byte_lists(v@),
{
    let mut r: Vec<Vec<u8>> = Vec::with_capacity(v.len());
    let mut i: usize = 0;
    while i < v.len()
        invariant
            i <= v@.len(),
            r@.len() == i,
            forall|k: int| 0 <= k < i ==> r@[k]@ == v@[k]@,
        decreases v@.len() - i,
    {
        let b = copy_bytes(v[i].as_slice());
        r.push(b);
        i += 1;
    }
    assert(byte_lists(r@) =~= byte_lists(v@));
    r
}

/// Whether two lists of byte strings are equal.
fn byte_lists_eq(a: &Vec<Vec<u8>>, b: &Vec<Vec<u8>>) -> (r: bool)
    ensures
        r == (byte_lists(a@) == byte_lists(b@)),
{
    if a.len() != b.len() {
        assert(byte_lists(a@).len() != byte_lists(b@).len());
        return false;
    }
    let mut i: usize = 0;
    while i < a.len()
        invariant
            a@.len() == b@.len(),
            i <= a@.len(),
            forall|k: int| 0 <= k < i ==> a@[k]@ == b@[k]@,
        decreases a@.len() - i,
    {
        if !bytes_eq(a[i].as_slice(), b[i].as_slice()) {
            assert(byte_lists(a@)[i as int] != byte_lists(b@)[i as int]);
            return false;
        }
        i += 1;
    }
    assert(byte_lists(a@) =~= byte_lists(b@));
    true
}

/// A state with the same slots and index retains all of the other.
proof fn lemma_same_index_retains(a: StoreView, b: StoreView)
    requires
        a.wf(),
        a.slots == b.slots,
        a.slot_indices == b.slot_indices,
    ensures
        retains(a, b),
{
    assert forall|j: int| 0 <= j < a.slot_indices.len() implies {
        let id = #[trigger] a.slot_indices[j];
        &&& b.slot_indices.contains(id)
        &&& id < b.slots.len() && b.slots[id as int] is Some
        &&& b.slots[id as int].unwrap().multi == a.slots[id as int].unwrap().multi
        &&& b.slots[id as int].unwrap().path == a.slots[id as int].unwrap().path
        &&& (a.slots[id as int].unwrap().index is Some ==> b.slots[id as int].unwrap().index
            == a.slots[id as int].unwrap().index)
    } by {
        assert(b.slot_indices[j] == a.slot_indices[j]);
    }
}

impl Store {
    /// An uninitialized store: no slots, no index, no handles.
    pub fn new() -> (s: Store)
        ensures
            s@.wf(),
            !s@.initialized,
            s@.slots.len() == 0,
            s@.slot_indices.len() == 0,
            s@.loose_dbs.len() == 0,
            s@.generation == 0,
            s@.state_id == 0,
            s@.num_handles == 0,
            s@.num_handles_stable == 0,
            s@.num_consolidations == 0,
    {
        let s = Store {
            files: Vec::new(),
            index: Index {
                slot_indices: Vec::new(),
                loose_dbs: Vec::new(),
                generation: 0,
                state_id: 0,
                initialized: false,
            },
            num_handles: 0,
            num_handles_stable: 0,
            num_disk_state_consolidation: 0,
        };
        assert(s@.slots =~= Seq::<Option<SlotView>>::empty());
        assert(s@.loose_dbs =~= Seq::<Seq<u8>>::empty());
        s
    }

    /// The marker of the current index.
    pub fn marker(&self) -> (r: SlotIndexMarker)
        ensures
            r == marker_of(self@),
    {
        SlotIndexMarker { generation: self.index.generation, state_id: self.index.state_id }
    }

    /// Whether a disk scan has ever been consolidated.
    pub fn is_initialized(&self) -> (r: bool)
        ensures
            r == self@.initialized,
    {
        self.index.initialized
    }

    /// How many consolidations with the disk took place.
    pub fn num_disk_state_consolidations(&self) -> (r: u64)
        ensures
            r == self@.num_consolidations,
    {
        self.num_disk_state_consolidation
    }

    /// The lookup of slot `id`, if it is populated and its index loaded.
    fn lookup_at(&self, id: usize) -> (r: Option<IndexLookup>)
        requires
            id < self@.slots.len(),
        ensures
            match r {
                Some(l) => lookup_of(self@, id) == Some(l@),
                None => lookup_of(self@, id) is None,
            },
    {
        assert(self@.slots[id as int] == self.files@[id as int]@);
        match &self.files[id].files {
            None => None,
            Some(IndexAndPacks::Index(b)) => match b.index {
                None => None,
                Some(i) => {
                    let l = IndexLookup { file: SingleOrMultiIndex::Single { index: i, data: b.data }, id };
                    Some(l)
                },
            },
            Some(IndexAndPacks::MultiIndex(m)) => match m.multi_index {
                None => None,
                Some(i) => {
                    let data = copy_tokens(&m.data);
                    let l = IndexLookup { file: SingleOrMultiIndex::Multi { index: i, data }, id };
                    Some(l)
                },
            },
        }
    }

    /// A snapshot of the current index: the lookups of its loaded slots in
    /// index order (slots still loading are left out), its loose object
    /// directories and its marker.
    pub fn collect_snapshot(&self) -> (r: Snapshot)
        requires
            self@.wf(),
        ensures
            r@ == snapshot_of(self@),
    {
        let mut indices: Vec<IndexLookup> = Vec::new();
        let mut j: usize = 0;
        while j < self.index.slot_indices.len()
            invariant
                self@.wf(),
                j <= self@.slot_indices.len(),
                indices@.map_values(|l: IndexLookup| l@) == lookups(self@, self@.slot_indices.take(j as int)),
            decreases self@.slot_indices.len() - j,
        {
            let id = self.index.slot_indices[j];
            assert(self@.slot_indices[j as int] == id);
            let l = self.lookup_at(id);
            let ghost before = indices@;
            proof {
                assert(self@.slot_indices.take(j + 1).drop_last() =~= self@.slot_indices.take(j as int));
            }
            match l {
                Some(l) => {
                    indices.push(l);
                    assert(indices@.map_values(|l: IndexLookup| l@) =~= before.map_values(
                        |l: IndexLookup| l@,
                    ).push(l@));
                },
                None => {},
            }
            j += 1;
        }
        assert(self@.slot_indices.take(j as int) =~= self@.slot_indices);
        let loose_dbs = copy_byte_lists(&self.index.loose_dbs);
        Snapshot { indices, loose_dbs, marker: self.marker() }
    }

    /// A snapshot of the current index, as a stable or a plain replacement.
    pub fn collect_replace_outcome(&self, is_stable: bool) -> (r: Outcome)
        requires
            self@.wf(),
        ensures
            outcome_is(r, is_stable, snapshot_of(self@)),
    {
        let snapshot = self.collect_snapshot();
        if is_stable {
            Outcome::ReplaceStable(snapshot)
        } else {
            Outcome::Replace(snapshot)
        }
    }

    /// Decides, from memory alone, what a caller that last saw `marker` gets:
    /// a scan of the disk where the store was never initialized, or where
    /// nothing changed and `refresh_mode` allows one; nothing new where
    /// nothing changed and it does not; a plain replacement where the caller
    /// saw nothing yet or another generation; a stable one where only the
    /// state id moved on.
    pub fn load_next_indices(&self, refresh_mode: RefreshMode, marker: Option<SlotIndexMarker>) -> (r:
        Next)
        requires
            self@.wf(),
        ensures
            match decide(self@, refresh_mode, marker) {
                Decision::Stop => r matches Next::Done(None),
                Decision::ScanDisk => r matches Next::ScanDisk(seen) && seen == self@.state_id,
                Decision::Replace => r matches Next::Done(Some(o)) && outcome_is(o, false, snapshot_of(self@)),
                Decision::ReplaceStable => r matches Next::Done(Some(o)) && outcome_is(o, true, snapshot_of(self@)),
            },
    {
        let state_id = self.index.state_id;
        if !self.index.initialized {
            return Next::ScanDisk(state_id);
        }
        match marker {
            Some(marker) => {
                if marker.generation != self.index.generation {
                    Next::Done(Some(self.collect_replace_outcome(false)))
                } else if marker.state_id == state_id {
                    match refresh_mode {
                        RefreshMode::Never => Next::Done(None),
                        RefreshMode::AfterAllIndicesLoaded => Next::ScanDisk(state_id),
                    }
                } else {
                    Next::Done(Some(self.collect_replace_outcome(true)))
                }
            },
            None => Next::Done(Some(self.collect_replace_outcome(false))),
        }
    }

    /// Whether loaded packs may be unloaded: only while no live handle relies
    /// on slot ids keeping their meaning.
    pub fn may_unload_packs(&self) -> (r: bool)
        ensures
            r == (self@.num_handles_stable == 0),
    {
        self.num_handles_stable == 0
    }

    /// Registers a new live handle; `requires_stable_ids` declares that it
    /// relies on slot ids keeping their meaning.
    pub fn register_handle(&mut self, requires_stable_ids: bool) -> (h: Handle)
        requires
            old(self)@.wf(),
        ensures
            final(self)@.wf(),
            advances(old(self)@, final(self)@),
            retains(old(self)@, final(self)@),
            h.marker.is_none(),
            h.requires_stable_ids == requires_stable_ids,
            final(self)@ == after_register(old(self)@, requires_stable_ids),
    {
        if self.num_handles < usize::MAX {
            self.num_handles = self.num_handles + 1;
            if requires_stable_ids {
                self.num_handles_stable = self.num_handles_stable + 1;
            }
        }
        proof {
            lemma_same_index_retains(old(self)@, self@);
        }
        Handle { marker: None, requires_stable_ids }
    }

    /// Deregisters a live handle.
    pub fn deregister_handle(&mut self, handle: Handle)
        requires
            old(self)@.wf(),
        ensures
            final(self)@.wf(),
            advances(old(self)@, final(self)@),
            retains(old(self)@, final(self)@),
            final(self)@ == after_deregister(old(self)@, handle.requires_stable_ids),
    {
        if handle.requires_stable_ids && self.num_handles_stable > 0 {
            self.num_handles_stable = self.num_handles_stable - 1;
        } else if self.num_handles_stable > 0 && self.num_handles_stable == self.num_handles {
            self.num_handles_stable = self.num_handles_stable - 1;
        }
        if self.num_handles > 0 {
            self.num_handles = self.num_handles - 1;
        }
        proof {
            lemma_same_index_retains(old(self)@, self@);
        }
    }
}


/// Whether the slot content `s` is the index file `e`.
fn is_same_file(s: &IndexAndPacks, e: &IndexFile) -> (r: bool)
    ensures
        r == same_file(s@, e@),
{
    match (s, e) {
        (IndexAndPacks::Index(b), IndexFile::Single { path, .. }) => bytes_eq(b.path.as_slice(), path.as_slice()),
        (IndexAndPacks::MultiIndex(m), IndexFile::Multi { path, .. }) => bytes_eq(
            m.path.as_slice(),
            path.as_slice(),
        ),
        _ => false,
    }
}

/// The view of a list of index files.
pub open spec fn files_view(v: Seq<IndexFile>) -> Seq<DiskFileView> {
    v.map_values(|f: IndexFile| f@)
}

/// Whether `s` is among the index files `disk`.
fn is_on_disk(s: &IndexAndPacks, disk: &Vec<IndexFile>) -> (r: bool)
    ensures
        r == on_disk(s@, files_view(disk@)),
{
    let ghost d = files_view(disk@);
    let mut i: usize = 0;
    while i < disk.len()
        invariant
            i <= disk@.len(),
            d == files_view(disk@),
            forall|k: int| 0 <= k < i ==> !same_file(s@, #[trigger] d[k]),
        decreases disk@.len() - i,
    {
        if is_same_file(s, &disk[i]) {
            assert(same_file(s@, d[i as int]));
            return true;
        }
        i += 1;
    }
    false
}

/// A slot for a newly found index file, with no pack data mapped.
fn fresh_content(e: &IndexFile) -> (r: IndexAndPacks)
    ensures
        r@ == fresh_slot(e@),
{
    match e {
        IndexFile::Single { path, index } => {
            let r = IndexAndPacks::Index(IndexBundle { path: copy_bytes(path.as_slice()), index: *index, data: None });
            assert(r@.data =~= fresh_slot(e@).data);
            r
        },
        IndexFile::Multi { path, multi_index, num_packs } => {
            let mut data: Vec<Option<u64>> = Vec::with_capacity(*num_packs);
            let mut i: usize = 0;
            while i < *num_packs
                invariant
                    i <= *num_packs,
                    data@ =~= Seq::new(i as nat, |k: int| None::<u64>),
                decreases *num_packs - i,
            {
                data.push(None);
                i += 1;
            }
            let r = IndexAndPacks::MultiIndex(
                MultiIndexBundle { path: copy_bytes(path.as_slice()), multi_index: *multi_index, data },
            );
            assert(r@.data =~= fresh_slot(e@).data);
            r
        },
    }
}

/// A copy of the content of a slot.
fn copy_content(f: &IndexAndPacks) -> (r: IndexAndPacks)
    ensures
        r@ == f@,
{
    match f {
        IndexAndPacks::Index(b) => IndexAndPacks::Index(
            IndexBundle { path: copy_bytes(b.path.as_slice()), index: b.index, data: b.data },
        ),
        IndexAndPacks::MultiIndex(m) => IndexAndPacks::MultiIndex(
            MultiIndexBundle {
                path: copy_bytes(m.path.as_slice()),
                multi_index: m.multi_index,
                data: copy_tokens(&m.data),
            },
        ),
    }
}

impl Store {
    /// The first slot id of the index whose slot holds `e`.
    fn known_slot(&self, e: &IndexFile) -> (r: Option<usize>)
        requires
            self@.wf(),
        ensures
            r == known_from(self@, e@, 0),
    {
        let mut j: usize = 0;
        while j < self.index.slot_indices.len()
            invariant
                self@.wf(),
                j <= self@.slot_indices.len(),
                known_from(self@, e@, 0) == known_from(self@, e@, j as int),
            decreases self@.slot_indices.len() - j,
        {
            let id = self.index.slot_indices[j];
            assert(self@.slot_indices[j as int] == id);
            assert(self@.slots[id as int] == self.files@[id as int]@);
            match &self.files[id].files {
                Some(f) => {
                    if is_same_file(f, e) {
                        return Some(id);
                    }
                },
                None => {},
            }
            j += 1;
        }
        None
    }

    /// Whether a file of the index is gone from `disk`.
    fn any_vanished(&self, disk: &DiskState) -> (r: bool)
        requires
            self@.wf(),
        ensures
            r == has_vanished(self@, disk@.indices),
    {
        let ghost m = self@;
        let mut j: usize = 0;
        while j < self.index.slot_indices.len()
            invariant
                self@.wf(),
                m == self@,
                j <= m.slot_indices.len(),
                forall|k: int| 0 <= k < j ==> on_disk(#[trigger] m.slots[m.slot_indices[k] as int].unwrap(), disk@.indices),
            decreases m.slot_indices.len() - j,
        {
            let id = self.index.slot_indices[j];
            assert(m.slot_indices[j as int] == id);
            assert(m.slots[id as int] == self.files@[id as int]@);
            match &self.files[id].files {
                Some(f) => {
                    if !is_on_disk(f, &disk.indices) {
                        assert(files_view(disk.indices@) == disk@.indices);
                        assert(!on_disk(m.slots[m.slot_indices[j as int] as int].unwrap(), disk@.indices));
                        return true;
                    }
                    assert(files_view(disk.indices@) == disk@.indices);
                },
                None => {},
            }
            j += 1;
        }
        false
    }
}


impl Store {
    /// For each file of `disk`, the slot id of the index that holds it; and
    /// whether any file is new.
    fn match_files(&self, disk: &DiskState) -> (r: (Vec<Option<usize>>, bool))
        requires
            self@.wf(),
        ensures
            r.0@.len() == disk@.indices.len(),
            forall|i: int| 0 <= i < r.0@.len() ==> r.0@[i] == known_from(self@, #[trigger] disk@.indices[i], 0),
            r.1 == (additions(self@, disk@.indices).len() > 0),
    {
        let ghost d = disk@.indices;
        let mut known: Vec<Option<usize>> = Vec::with_capacity(disk.indices.len());
        let mut any_new = false;
        let mut i: usize = 0;
        while i < disk.indices.len()
            invariant
                self@.wf(),
                d == disk@.indices,
                d.len() == disk.indices@.len(),
                i <= d.len(),
                known@.len() == i,
                forall|k: int| 0 <= k < i ==> known@[k] == known_from(self@, #[trigger] d[k], 0),
                any_new == (additions(self@, d.take(i as int)).len() > 0),
            decreases d.len() - i,
        {
            let k = self.known_slot(&disk.indices[i]);
            assert(d[i as int] == disk.indices@[i as int]@);
            proof {
                assert(d.take(i + 1).drop_last() =~= d.take(i as int));
                assert(d.take(i + 1).last() == d[i as int]);
            }
            if k.is_none() {
                any_new = true;
            }
            known.push(k);
            i += 1;
        }
        assert(d.take(i as int) =~= d);
        (known, any_new)
    }

    /// Gives each new file of `disk` a new slot after the existing ones and
    /// appends those slot ids to the index.
    fn add_new_slots(&mut self, disk: &DiskState, known: &Vec<Option<usize>>)
        requires
            old(self)@.wf(),
            known@.len() == disk@.indices.len(),
            forall|i: int|
                0 <= i < known@.len() ==> known@[i] == known_from(old(self)@, #[trigger] disk@.indices[i], 0),
        ensures
            final(self)@ == (StoreView {
                slots: old(self)@.slots + additions(old(self)@, disk@.indices).map_values(
                    |e: DiskFileView| Some(fresh_slot(e)),
                ),
                slot_indices: old(self)@.slot_indices + Seq::new(
                    additions(old(self)@, disk@.indices).len(),
                    |k: int| (old(self)@.slots.len() + k) as usize,
                ),
                ..old(self)@
            }),
    {
        let ghost m = self@;
        let ghost d = disk@.indices;
        let mut i: usize = 0;
        while i < disk.indices.len()
            invariant
                d == disk@.indices,
                d.len() == disk.indices@.len(),
                known@.len() == d.len(),
                forall|k: int| 0 <= k < known@.len() ==> known@[k] == known_from(m, #[trigger] d[k], 0),
                i <= d.len(),
                self@ == (StoreView {
                    slots: m.slots + additions(m, d.take(i as int)).map_values(
                        |e: DiskFileView| Some(fresh_slot(e)),
                    ),
                    slot_indices: m.slot_indices + Seq::new(
                        additions(m, d.take(i as int)).len(),
                        |k: int| (m.slots.len() + k) as usize,
                    ),
                    ..m
                }),
            decreases d.len() - i,
        {
            let ghost before = self@;
            proof {
                assert(d.take(i + 1).drop_last() =~= d.take(i as int));
                assert(d.take(i + 1).last() == d[i as int]);
                assert(d[i as int] == disk.indices@[i as int]@);
            }
            if known[i].is_none() {
                let id = self.files.len();
                let content = fresh_content(&disk.indices[i]);
                self.files.push(Slot { files: Some(content) });
                self.index.slot_indices.push(id);
                proof {
                    let add = additions(m, d.take(i + 1));
                    let prev = additions(m, d.take(i as int));
                    assert(add == prev.push(d[i as int]));
                    assert(self@.slots =~= before.slots.push(Some(fresh_slot(d[i as int]))));
                    assert(add.map_values(|e: DiskFileView| Some(fresh_slot(e))) =~= prev.map_values(
                        |e: DiskFileView| Some(fresh_slot(e)),
                    ).push(Some(fresh_slot(d[i as int]))));
                    assert(self@.slots =~= m.slots + add.map_values(|e: DiskFileView| Some(fresh_slot(e))));
                    assert(self@.slot_indices =~= m.slot_indices + Seq::new(
                        add.len(),
                        |k: int| (m.slots.len() + k) as usize,
                    ));
                }
            } else {
                proof {
                    assert(additions(m, d.take(i + 1)) == additions(m, d.take(i as int)));
                }
            }
            i += 1;
        }
        assert(d.take(i as int) =~= d);
    }
}


/// A slot id found by `known_from` names a populated slot holding `e`.
proof fn lemma_known_from(m: StoreView, e: DiskFileView, j: int)
    ensures
        known_from(m, e, j) matches Some(id) ==> id < m.slots.len() && m.slots[id as int] is Some
            && same_file(m.slots[id as int].unwrap(), e),
    decreases m.slot_indices.len() - j,
{
    if 0 <= j < m.slot_indices.len() {
        lemma_known_from(m, e, j + 1);
    }
}

impl Store {
    /// Counts one more consolidation with the disk, up to the counter's limit.
    fn count_consolidation(&mut self)
        ensures
            final(self)@ == counted(old(self)@),
    {
        if self.num_disk_state_consolidation < u64::MAX {
            self.num_disk_state_consolidation = self.num_disk_state_consolidation + 1;
        }
    }

    /// Reassigns slot ids: slot `i` becomes the `i`-th file of `disk`, with
    /// what the store held for it, and the index lists every slot in order.
    fn reorganize_slots(&mut self, disk: &DiskState, known: &Vec<Option<usize>>)
        requires
            old(self)@.wf(),
            known@.len() == disk@.indices.len(),
            forall|i: int|
                0 <= i < known@.len() ==> known@[i] == known_from(old(self)@, #[trigger] disk@.indices[i], 0),
        ensures
            final(self)@ == (StoreView {
                slots: disk@.indices.map_values(|e: DiskFileView| Some(carried(old(self)@, e))),
                slot_indices: Seq::new(disk@.indices.len(), |i: int| i as usize),
                ..old(self)@
            }),
    {
        let ghost m = self@;
        let ghost d = disk@.indices;
        let mut files: Vec<Slot> = Vec::with_capacity(disk.indices.len());
        let mut ids: Vec<usize> = Vec::with_capacity(disk.indices.len());
        let mut i: usize = 0;
        while i < disk.indices.len()
            invariant
                self@ == m,
                m.wf(),
                d == disk@.indices,
                d.len() == disk.indices@.len(),
                known@.len() == d.len(),
                forall|k: int| 0 <= k < known@.len() ==> known@[k] == known_from(m, #[trigger] d[k], 0),
                i <= d.len(),
                files@.len() == i,
                forall|k: int| 0 <= k < i ==> (#[trigger] files@[k])@ == Some(carried(m, d[k])),
                ids@ =~= Seq::new(i as nat, |k: int| k as usize),
            decreases d.len() - i,
        {
            assert(d[i as int] == disk.indices@[i as int]@);
            let content = match known[i] {
                Some(id) => {
                    proof {
                        lemma_known_from(m, d[i as int], 0);
                    }
                    assert(m.slots[id as int] == self.files@[id as int]@);
                    match &self.files[id].files {
                        Some(f) => copy_content(f),
                        None => fresh_content(&disk.indices[i]),
                    }
                },
                None => fresh_content(&disk.indices[i]),
            };
            files.push(Slot { files: Some(content) });
            ids.push(i);
            i += 1;
        }
        self.files = files;
        self.index.slot_indices = ids;
        assert(self@.slots =~= d.map_values(|e: DiskFileView| Some(carried(m, e))));
    }

    /// Reconciles the store with `disk`, the result of a scan that the caller
    /// made after `load_next_indices` answered `ScanDisk(seen)`.
    ///
    /// Where the index moved on since then, nothing happens and the caller
    /// is to decide anew. Otherwise the consolidation is counted, and where
    /// the index changes it is replaced: with a new state id, and with a new
    /// generation where slot ids were reassigned. The outcome is a plain
    /// replacement for the first consolidation and after a reassignment, a
    /// stable one otherwise; `None` where nothing changed.
    pub fn consolidate_with_disk_state(&mut self, seen: u64, disk: &DiskState) -> (r: Result<
        Option<Outcome>,
        Error,
    >)
        requires
            old(self)@.wf(),
        ensures
            final(self)@.wf(),
            advances(old(self)@, final(self)@),
            retains(old(self)@, final(self)@),
            seen != old(self)@.state_id ==> (r matches Err(Error::StateChanged) && final(self)@
                == old(self)@),
            seen == old(self)@.state_id && !changes(old(self)@, disk@) ==> (r matches Ok(None)
                && final(self)@ == counted(old(self)@)),
            seen == old(self)@.state_id && changes(old(self)@, disk@) && exhausted(old(self)@, disk@)
                ==> (r matches Err(Error::Exhausted) && final(self)@ == counted(old(self)@)),
            seen == old(self)@.state_id && changes(old(self)@, disk@) && !exhausted(old(self)@, disk@)
                ==> (r matches Ok(Some(o)) && final(self)@ == consolidated(old(self)@, disk@)
                && outcome_is(
                o,
                old(self)@.initialized && !will_reorganize(old(self)@, disk@),
                snapshot_of(final(self)@),
            )),
    {
        let ghost m = self@;
        if seen != self.index.state_id {
            return Err(Error::StateChanged);
        }
        let vanished = self.any_vanished(disk);
        let reorganize = vanished && self.may_unload_packs();
        let (known, any_new) = self.match_files(disk);
        let same_loose_dbs = byte_lists_eq(&self.index.loose_dbs, &disk.loose_dbs);
        assert(byte_lists(disk.loose_dbs@) == disk@.loose_dbs);
        if self.index.initialized && !reorganize && !any_new && same_loose_dbs {
            self.count_consolidation();
            return Ok(None);
        }
        if self.index.state_id == u64::MAX || (reorganize && self.index.generation == u64::MAX) {
            self.count_consolidation();
            return Err(Error::Exhausted);
        }
        let was_initialized = self.index.initialized;
        let state_id = self.index.state_id + 1;
        let generation = if reorganize {
            self.reorganize_slots(disk, &known);
            self.index.generation + 1
        } else {
            self.add_new_slots(disk, &known);
            self.index.generation
        };
        self.index.loose_dbs = copy_byte_lists(&disk.loose_dbs);
        self.index.generation = generation;
        self.index.state_id = state_id;
        self.index.initialized = true;
        self.count_consolidation();
        let num_slots = self.files.len();
        proof {
            let f = consolidated(m, disk@);
            assert(self@.slots == f.slots);
            assert(self@.slot_indices == f.slot_indices);
            assert(self@ == f);
            if reorganize {
                assert forall|j: int| 0 <= j < f.slot_indices.len() implies #[trigger] f.slot_indices[j]
                    < f.slots.len() && f.slots[f.slot_indices[j] as int] is Some by {}
            } else {
                let n = m.slot_indices.len();
                assert forall|j: int| 0 <= j < f.slot_indices.len() implies #[trigger] f.slot_indices[j]
                    < f.slots.len() && f.slots[f.slot_indices[j] as int] is Some by {
                    if j >= n {
                        assert(f.slots.len() == num_slots);
                        assert(m.slots.len() + (j - n) < num_slots);
                        assert(f.slot_indices[j] == m.slots.len() + (j - n));
                    } else {
                        assert(f.slot_indices[j] == m.slot_indices[j]);
                    }
                }
                assert forall|j: int| 0 <= j < m.slot_indices.len() implies {
                    let id = #[trigger] m.slot_indices[j];
                    f.slot_indices.contains(id) && f.slots[id as int] == m.slots[id as int]
                } by {
                    assert(f.slot_indices[j] == m.slot_indices[j]);
                }
            }
        }
        let snapshot = self.collect_snapshot();
        if was_initialized && !reorganize {
            Ok(Some(Outcome::ReplaceStable(snapshot)))
        } else {
            Ok(Some(Outcome::Replace(snapshot)))
        }
    }
}


/// `s` with its index loaded as `token`.
pub open spec fn with_index(s: SlotView, token: u64) -> SlotView {
    SlotView { index: Some(token), ..s }
}

/// `s` with the data of pack `pack` loaded as `token`.
pub open spec fn with_data(s: SlotView, pack: int, token: u64) -> SlotView {
    SlotView { data: s.data.update(pack, Some(token)), ..s }
}

/// `s` with no pack data mapped.
pub open spec fn unloaded(s: Option<SlotView>) -> Option<SlotView> {
    match s {
        Some(v) => Some(SlotView { data: Seq::new(v.data.len(), |i: int| None), ..v }),
        None => None,
    }
}

/// A list of `n` unmapped pack-data tokens.
fn no_tokens(n: usize) -> (r: Vec<Option<u64>>)
    ensures
        r@ == Seq::new(n as nat, |i: int| None::<u64>),
{
    let mut r: Vec<Option<u64>> = Vec::with_capacity(n);
    let mut i: usize = 0;
    while i < n
        invariant
            i <= n,
            r@ =~= Seq::new(i as nat, |k: int| None::<u64>),
        decreases n - i,
    {
        r.push(None);
        i += 1;
    }
    r
}

impl Store {
    /// Records that the index of slot `id` was loaded as `token`. Only a
    /// populated slot whose index is not loaded yet takes it; returns whether
    /// it did.
    pub fn load_index(&mut self, id: usize, token: u64) -> (r: bool)
        requires
            old(self)@.wf(),
        ensures
            final(self)@.wf(),
            advances(old(self)@, final(self)@),
            retains(old(self)@, final(self)@),
            r == (id < old(self)@.slots.len() && old(self)@.slots[id as int] is Some
                && old(self)@.slots[id as int].unwrap().index is None),
            r ==> final(self)@ == (StoreView {
                slots: old(self)@.slots.update(
                    id as int,
                    Some(with_index(old(self)@.slots[id as int].unwrap(), token)),
                ),
                ..old(self)@
            }),
            !r ==> final(self)@ == old(self)@,
    {
        let ghost m = self@;
        if id >= self.files.len() {
            return false;
        }
        assert(m.slots[id as int] == self.files@[id as int]@);
        let slot = match &self.files[id].files {
            Some(IndexAndPacks::Index(b)) => {
                if b.index.is_some() {
                    return false;
                }
                IndexAndPacks::Index(IndexBundle { path: copy_bytes(b.path.as_slice()), index: Some(token), data: b.data })
            },
            Some(IndexAndPacks::MultiIndex(x)) => {
                if x.multi_index.is_some() {
                    return false;
                }
                IndexAndPacks::MultiIndex(
                    MultiIndexBundle {
                        path: copy_bytes(x.path.as_slice()),
                        multi_index: Some(token),
                        data: copy_tokens(&x.data),
                    },
                )
            },
            None => {
                return false;
            },
        };
        self.files.set(id, Slot { files: Some(slot) });
        assert(self@.slots =~= m.slots.update(id as int, Some(with_index(m.slots[id as int].unwrap(), token))));
        proof {
            assert forall|j: int| 0 <= j < m.slot_indices.len() implies {
                let k = #[trigger] m.slot_indices[j];
                self@.slot_indices.contains(k)
            } by {
                assert(self@.slot_indices[j] == m.slot_indices[j]);
            }
        }
        true
    }

    /// Records that the data file of pack `pack` of slot `id` was mapped as
    /// `token`. Only a populated slot with such a pack whose data is not
    /// mapped yet takes it; returns whether it did.
    pub fn load_pack_data(&mut self, id: usize, pack: usize, token: u64) -> (r: bool)
        requires
            old(self)@.wf(),
        ensures
            final(self)@.wf(),
            advances(old(self)@, final(self)@),
            retains(old(self)@, final(self)@),
            r == (id < old(self)@.slots.len() && old(self)@.slots[id as int] is Some && pack
                < old(self)@.slots[id as int].unwrap().data.len()
                && old(self)@.slots[id as int].unwrap().data[pack as int] is None),
            r ==> final(self)@ == (StoreView {
                slots: old(self)@.slots.update(
                    id as int,
                    Some(with_data(old(self)@.slots[id as int].unwrap(), pack as int, token)),
                ),
                ..old(self)@
            }),
            !r ==> final(self)@ == old(self)@,
    {
        let ghost m = self@;
        if id >= self.files.len() {
            return false;
        }
        assert(m.slots[id as int] == self.files@[id as int]@);
        let slot = match &self.files[id].files {
            Some(IndexAndPacks::Index(b)) => {
                if pack != 0 || b.data.is_some() {
                    return false;
                }
                let r = IndexAndPacks::Index(
                    IndexBundle { path: copy_bytes(b.path.as_slice()), index: b.index, data: Some(token) },
                );
                assert(r@.data =~= m.slots[id as int].unwrap().data.update(0, Some(token)));
                r
            },
            Some(IndexAndPacks::MultiIndex(x)) => {
                if pack >= x.data.len() || x.data[pack].is_some() {
                    return false;
                }
                let mut data = copy_tokens(&x.data);
                data.set(pack, Some(token));
                IndexAndPacks::MultiIndex(
                    MultiIndexBundle { path: copy_bytes(x.path.as_slice()), multi_index: x.multi_index, data },
                )
            },
            None => {
                return false;
            },
        };
        self.files.set(id, Slot { files: Some(slot) });
        assert(self@.slots =~= m.slots.update(
            id as int,
            Some(with_data(m.slots[id as int].unwrap(), pack as int, token)),
        ));
        proof {
            assert forall|j: int| 0 <= j < m.slot_indices.len() implies {
                let k = #[trigger] m.slot_indices[j];
                self@.slot_indices.contains(k)
            } by {
                assert(self@.slot_indices[j] == m.slot_indices[j]);
            }
        }
        true
    }

    /// Unmaps the data of every pack, where `may_unload_packs` allows it;
    /// indices stay loaded. Returns whether it did.
    pub fn unload_packs(&mut self) -> (r: bool)
        requires
            old(self)@.wf(),
        ensures
            final(self)@.wf(),
            advances(old(self)@, final(self)@),
            retains(old(self)@, final(self)@),
            r == (old(self)@.num_handles_stable == 0),
            r ==> final(self)@ == (StoreView {
                slots: old(self)@.slots.map_values(|s: Option<SlotView>| unloaded(s)),
                ..old(self)@
            }),
            !r ==> final(self)@ == old(self)@,
    {
        if !self.may_unload_packs() {
            return false;
        }
        let ghost m = self@;
        let mut i: usize = 0;
        while i < self.files.len()
            invariant
                m.wf(),
                i <= self@.slots.len(),
                self@.slots.len() == m.slots.len(),
                forall|k: int| 0 <= k < i ==> self@.slots[k] == unloaded(#[trigger] m.slots[k]),
                forall|k: int| i <= k < m.slots.len() ==> self@.slots[k] == #[trigger] m.slots[k],
                self@ == (StoreView { slots: self@.slots, ..m }),
            decreases m.slots.len() - i,
        {
            assert(self@.slots[i as int] == self.files@[i as int]@);
            let ghost before = self@;
            let cleared = match &self.files[i].files {
                Some(IndexAndPacks::Index(b)) => {
                    let r = IndexAndPacks::Index(IndexBundle { path: copy_bytes(b.path.as_slice()), index: b.index, data: None });
                    assert(r@.data =~= unloaded(m.slots[i as int]).unwrap().data);
                    Some(r)
                },
                Some(IndexAndPacks::MultiIndex(x)) => {
                    let data = no_tokens(x.data.len());
                    Some(
                        IndexAndPacks::MultiIndex(
                            MultiIndexBundle { path: copy_bytes(x.path.as_slice()), multi_index: x.multi_index, data },
                        ),
                    )
                },
                None => None,
            };
            self.files.set(i, Slot { files: cleared });
            assert(self@.slots =~= before.slots.update(i as int, unloaded(m.slots[i as int])));
            i += 1;
        }
        assert(self@.slots =~= m.slots.map_values(|s: Option<SlotView>| unloaded(s)));
        proof {
            assert forall|j: int| 0 <= j < m.slot_indices.len() implies {
                let k = #[trigger] m.slot_indices[j];
                self@.slot_indices.contains(k)
            } by {
                assert(self@.slot_indices[j] == m.slot_indices[j]);
            }
        }
        true
    }
}

} // verus!
