use vstd::prelude::*;
use crate::shard::ShardMode;
use crate::shard::copy_bytes;
use crate::shard::extension_matches;
use crate::shard::matches_extension;
use crate::shard::opt_bytes_view;
use crate::shard::shard_key_spec;
use crate::shard::shard_prefix;
use crate::shard::shard_prefix_spec;
use crate::digest::hex_sha256;

verus! {

/// The immutable configuration of one run: the sharding mode, the target
/// file extension, and the number of key bytes that name a shard.
pub struct Config {
    pub mode: ShardMode,
    pub file_type: Vec<u8>,
    pub shard_len: usize,
}

/// The mathematical model of a configuration.
#[verifier::ext_equal]
pub struct ConfigV {
    pub mode: ShardMode,
    pub file_type: Seq<u8>,
    pub shard_len: nat,
}

impl View for Config {
    type V = ConfigV;

    open spec fn view(&self) -> ConfigV {
        ConfigV { mode: self.mode, file_type: self.file_type@, shard_len: self.shard_len as nat }
    }
}

/// One file listed by the traversal: its base name, its extension (`None`
/// when the name has no extension), and its contents.
pub struct Entry {
    pub name: Vec<u8>,
    pub extension: Option<Vec<u8>>,
    pub content: Vec<u8>,
}

/// The mathematical model of a traversal entry.
#[verifier::ext_equal]
pub struct EntryV {
    pub name: Seq<u8>,
    pub extension: Option<Seq<u8>>,
    pub content: Seq<u8>,
}

impl View for Entry {
    type V = EntryV;

    open spec fn view(&self) -> EntryV {
        EntryV {
            name: self.name@,
            extension: opt_bytes_view(self.extension),
            content: self.content@,
        }
    }
}

/// One planned relocation: write `content` to `<target>/<prefix>/<name>`.
pub struct PlannedWrite {
    pub prefix: Vec<u8>,
    pub name: Vec<u8>,
    pub content: Vec<u8>,
}

/// The mathematical model of a planned relocation.
#[verifier::ext_equal]
pub struct PlannedWriteV {
    pub prefix: Seq<u8>,
    pub name: Seq<u8>,
    pub content: Seq<u8>,
}

impl View for PlannedWrite {
    type V = PlannedWriteV;

    open spec fn view(&self) -> PlannedWriteV {
        PlannedWriteV { prefix: self.prefix@, name: self.name@, content: self.content@ }
    }
}

/// Whether an entry survives the extension filter of configuration `c`.
pub open spec fn entry_selected(c: ConfigV, e: EntryV) -> bool {
    extension_matches(e.extension, c.file_type)
}

/// The shard directory name an entry lands in under configuration `c`.
pub open spec fn dest_prefix(c: ConfigV, e: EntryV) -> Seq<u8> {
    shard_prefix_spec(shard_key_spec(c.mode, e.name, e.content), c.shard_len)
}

/// A destination inside the target tree: a shard directory name and a base
/// file name within it.
#[verifier::ext_equal]
pub struct Dest {
    pub prefix: Seq<u8>,
    pub name: Seq<u8>,
}

/// The destination of an entry under configuration `c`. The base file name
/// is always kept; only the containing directory is derived.
pub open spec fn dest_of(c: ConfigV, e: EntryV) -> Dest {
    Dest { prefix: dest_prefix(c, e), name: e.name }
}

/// The relocation planned for a selected entry.
pub open spec fn planned_write_of(c: ConfigV, e: EntryV) -> PlannedWriteV {
    PlannedWriteV { prefix: dest_prefix(c, e), name: e.name, content: e.content }
}

/// Plans one entry: `None` when its extension does not match the configured
/// one, otherwise the write that relocates it.
pub fn plan_entry(c: &Config, e: &Entry) -> (r: Option<PlannedWrite>)
    ensures
        match r {
            Some(w) => entry_selected(c@, e@) && w@ == planned_write_of(c@, e@),
            None => !entry_selected(c@, e@),
        },
{
    if !matches_extension(&e.extension, &c.file_type) {
        return None;
    }
    let prefix: Vec<u8> = match c.mode {
        ShardMode::Filename => shard_prefix(e.name.as_slice(), c.shard_len),
        ShardMode::Content => {
            let key = hex_sha256(e.content.as_slice());
            shard_prefix(key.as_slice(), c.shard_len)
        },
    };
    let name = copy_bytes(e.name.as_slice());
    let content = copy_bytes(e.content.as_slice());
    Some(PlannedWrite { prefix, name, content })
}

/// The models of a sequence of entries.
pub open spec fn entries_view(s: Seq<Entry>) -> Seq<EntryV> {
    s.map_values(|e: Entry| e@)
}

/// The models of a sequence of planned writes.
pub open spec fn writes_view(s: Seq<PlannedWrite>) -> Seq<PlannedWriteV> {
    s.map_values(|w: PlannedWrite| w@)
}

/// The writes a run performs, in traversal order: one per selected entry,
/// in the order the entries were listed.
pub open spec fn plan_seq(c: ConfigV, entries: Seq<EntryV>) -> Seq<PlannedWriteV>
    decreases entries.len(),
{
    if entries.len() == 0 {
        Seq::empty()
    } else {
        plan_seq(c, entries.drop_last()) + (if entry_selected(c, entries.last()) {
            seq![planned_write_of(c, entries.last())]
        } else {
            Seq::empty()
        })
    }
}

/// Plans a whole run: the planned writes for exactly the selected entries,
/// in traversal order.
pub fn plan_run(c: &Config, entries: &Vec<Entry>) -> (r: Vec<PlannedWrite>)
    ensures
        writes_view(r@) == plan_seq(c@, entries_view(entries@)),
{
    let ghost ev = entries_view(entries@);
    let mut out: Vec<PlannedWrite> = Vec::new();
    let mut i: usize = 0;
    while i < entries.len()
        invariant
            i <= entries@.len(),
            ev == entries_view(entries@),
            writes_view(out@) == plan_seq(c@, ev.take(i as int)),
        decreases entries@.len() - i,
    {
        let ghost prev = out@;
        match plan_entry(c, &entries[i]) {
            Some(w) => {
                let ghost wv = w@;
                out.push(w);
                proof {
                    let t1 = ev.take(i as int + 1);
                    assert(t1.drop_last() =~= ev.take(i as int));
                    assert(t1.last() == entries@[i as int]@);
                    assert(writes_view(out@) =~= writes_view(prev) + seq![wv]);
                    assert(writes_view(out@) =~= plan_seq(c@, t1));
                }
            },
            None => {
                proof {
                    let t1 = ev.take(i as int + 1);
                    assert(t1.drop_last() =~= ev.take(i as int));
                    assert(t1.last() == entries@[i as int]@);
                    assert(plan_seq(c@, t1) =~= plan_seq(c@, ev.take(i as int)));
                }
            },
        }
        i = i + 1;
    }
    proof {
        assert(ev.take(entries@.len() as int) =~= ev);
    }
    out
}

/// The target tree a sequence of writes leaves behind, as a map from
/// destination to contents: later writes to the same destination replace
/// earlier ones.
pub open spec fn tree_of_writes(ws: Seq<PlannedWriteV>) -> Map<Dest, Seq<u8>>
    decreases ws.len(),
{
    if ws.len() == 0 {
        Map::empty()
    } else {
        tree_of_writes(ws.drop_last()).insert(
            Dest { prefix: ws.last().prefix, name: ws.last().name },
            ws.last().content,
        )
    }
}

/// The target tree a whole run leaves behind under configuration `c`.
pub open spec fn tree_after(c: ConfigV, entries: Seq<EntryV>) -> Map<Dest, Seq<u8>> {
    tree_of_writes(plan_seq(c, entries))
}

/// One step of the run: the last entry either adds its write to the tree of
/// the earlier entries, or, when filtered out, changes nothing.
pub proof fn lemma_tree_after_step(c: ConfigV, entries: Seq<EntryV>)
    requires
        entries.len() > 0,
    ensures
        entry_selected(c, entries.last()) ==> tree_after(c, entries) == tree_after(
            c,
            entries.drop_last(),
        ).insert(dest_of(c, entries.last()), entries.last().content),
        !entry_selected(c, entries.last()) ==> tree_after(c, entries) == tree_after(
            c,
            entries.drop_last(),
        ),
{
    let prev = entries.drop_last();
    let ws = plan_seq(c, entries);
    if entry_selected(c, entries.last()) {
        assert(ws == plan_seq(c, prev) + seq![planned_write_of(c, entries.last())]);
        assert(ws.len() == plan_seq(c, prev).len() + 1);
        assert(ws.drop_last() =~= plan_seq(c, prev));
        assert(ws.last() == planned_write_of(c, entries.last()));
        assert(Dest { prefix: ws.last().prefix, name: ws.last().name } == dest_of(
            c,
            entries.last(),
        ));
    } else {
        assert(ws =~= plan_seq(c, prev));
    }
}

/// Determinism: the planned writes, and with them the produced target tree,
/// are a function of the configuration and the listed entries alone, so two
/// runs over an unchanged source tree place every file identically.
pub proof fn lemma_run_deterministic(
    c: ConfigV,
    entries: Seq<EntryV>,
    r1: Seq<PlannedWriteV>,
    r2: Seq<PlannedWriteV>,
)
    requires
        r1 == plan_seq(c, entries),
        r2 == plan_seq(c, entries),
    ensures
        r1 == r2,
        tree_of_writes(r1) == tree_of_writes(r2),
{
}

/// Filtering correctness: everything in the target tree was put there by
/// some entry that passed the extension filter; an entry whose extension
/// differs from the configured one never appears under the target.
pub proof fn lemma_filtering(c: ConfigV, entries: Seq<EntryV>, d: Dest)
    requires
        tree_after(c, entries).dom().contains(d),
    ensures
        exists|i: int|
            0 <= i < entries.len() && #[trigger] entry_selected(c, entries[i]) && dest_of(
                c,
                entries[i],
            ) == d && tree_after(c, entries)[d] == entries[i].content,
    decreases entries.len(),
{
    lemma_tree_after_step(c, entries);
    let prev = entries.drop_last();
    let last = entries.last();
    if entry_selected(c, last) && dest_of(c, last) == d {
        assert(entry_selected(c, entries[entries.len() - 1]) && dest_of(
            c,
            entries[entries.len() - 1],
        ) == d && tree_after(c, entries)[d] == entries[entries.len() - 1].content);
    } else {
        lemma_filtering(c, prev, d);
        let i = choose|i: int|
            0 <= i < prev.len() && #[trigger] entry_selected(c, prev[i]) && dest_of(c, prev[i])
                == d && tree_after(c, prev)[d] == prev[i].content;
        assert(entry_selected(c, entries[i]) && dest_of(c, entries[i]) == d && tree_after(
            c,
            entries,
        )[d] == entries[i].content);
    }
}

/// Collision overwrite: when entry `j` is selected and no later entry is a
/// selected entry with the same destination, the target tree holds entry
/// `j`'s content at that destination — the file processed last in traversal
/// order wins.
pub proof fn lemma_collision_overwrite(c: ConfigV, entries: Seq<EntryV>, j: int)
    requires
        0 <= j < entries.len(),
        entry_selected(c, entries[j]),
        forall|k: int|
            j < k < entries.len() ==> !(#[trigger] entry_selected(c, entries[k]) && dest_of(
                c,
                entries[k],
            ) == dest_of(c, entries[j])),
    ensures
        tree_after(c, entries).dom().contains(dest_of(c, entries[j])),
        tree_after(c, entries)[dest_of(c, entries[j])] == entries[j].content,
    decreases entries.len(),
{
    lemma_tree_after_step(c, entries);
    let prev = entries.drop_last();
    if j == entries.len() - 1 {
    } else {
        assert(prev[j] == entries[j]);
        lemma_collision_overwrite(c, prev, j);
    }
}

} // verus!
