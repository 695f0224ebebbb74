//! What a process that exposes its histograms keeps between two readings:
//! the latest snapshot of every histogram by name, and what was counted
//! between the latest two.

use crate::counts::differences;
use crate::layout::Layout;
use crate::percentile::Histograms;
use crate::precise::UnixInstant;
use crate::standard::Histogram;
use vstd::prelude::*;

verus! {

/// How histograms are exposed to Prometheus.
#[derive(Clone, Copy, Debug, PartialEq, Eq, Structural)]
pub struct PrometheusConfig {
    histograms: bool,
    histogram_grouping_power: u8,
}

impl View for PrometheusConfig {
    type V = (bool, u8);

    closed spec fn view(&self) -> (bool, u8) {
        (self.histograms, self.histogram_grouping_power)
    }
}

impl PrometheusConfig {
    /// Whether whole histograms are exposed, and with which grouping power.
    pub fn new(histograms: bool, histogram_grouping_power: u8) -> (r: PrometheusConfig)
        ensures
            r@ == (histograms, histogram_grouping_power),
    {
        PrometheusConfig { histograms, histogram_grouping_power }
    }

    /// Whether whole histograms are exposed, and not their percentiles
    /// alone.
    pub fn histograms(&self) -> (r: bool)
        ensures
            r == self@.0,
    {
        self.histograms
    }

    /// The grouping power that exposed histograms are brought down to.
    pub fn histogram_grouping_power(&self) -> (r: u8)
        ensures
            r == self@.1,
    {
        self.histogram_grouping_power
    }
}

/// A snapshot of a histogram as mathematical values.
pub struct SnapshotView {
    pub layout: Layout,
    pub counts: Seq<u64>,
}

/// The snapshot that a histogram holds.
pub open spec fn snapshot_of(histogram: Histogram) -> SnapshotView {
    SnapshotView { layout: histogram.layout(), counts: histogram.counts() }
}

/// Named snapshots as a map from the names: of two entries with one name
/// the later stands.
pub open spec fn as_map(entries: Seq<(String, Histogram)>) -> Map<Seq<char>, SnapshotView>
    decreases entries.len(),
{
    if entries.len() == 0 {
        Map::empty()
    } else {
        as_map(entries.drop_last()).insert(entries.last().0@, snapshot_of(entries.last().1))
    }
}

/// What is kept as counted between the latest two snapshots, after the
/// snapshots `entries` were taken: for every name that had a snapshot
/// before, the new snapshot less the one before; for any other name, what
/// was kept before.
pub open spec fn updated_deltas(
    deltas: Map<Seq<char>, SnapshotView>,
    previous: Map<Seq<char>, SnapshotView>,
    entries: Seq<(String, Histogram)>,
) -> Map<Seq<char>, SnapshotView>
    decreases entries.len(),
{
    if entries.len() == 0 {
        deltas
    } else {
        let before = updated_deltas(deltas, previous, entries.drop_last());
        let name = entries.last().0@;
        let snapshot = snapshot_of(entries.last().1);
        if previous.dom().contains(name) {
            before.insert(
                name,
                SnapshotView {
                    layout: snapshot.layout,
                    counts: differences(snapshot.counts, previous[name].counts),
                },
            )
        } else {
            before
        }
    }
}

/// No name stands twice.
pub open spec fn unique_names(entries: Seq<(String, Histogram)>) -> bool {
    forall|i: int, j: int| 0 <= i < j < entries.len() ==> entries[i].0@ != entries[j].0@
}

/// The names of a map of entries are those of the entries.
proof fn lemma_as_map_names(entries: Seq<(String, Histogram)>, name: Seq<char>)
    ensures
        as_map(entries).dom().contains(name) <==> exists|i: int|
            0 <= i < entries.len() && entries[i].0@ == name,
    decreases entries.len(),
{
    if entries.len() > 0 {
        let front = entries.drop_last();
        lemma_as_map_names(front, name);
        if exists|i: int| 0 <= i < front.len() && front[i].0@ == name {
            let i = choose|i: int| 0 <= i < front.len() && front[i].0@ == name;
            assert(entries[i].0@ == name);
        }
        if exists|i: int| 0 <= i < entries.len() && entries[i].0@ == name {
            let i = choose|i: int| 0 <= i < entries.len() && entries[i].0@ == name;
            if i < front.len() {
                assert(front[i].0@ == name);
            }
        }
    }
}

/// Where no name stands twice, every entry is what the map holds for its
/// name.
proof fn lemma_as_map_entry(entries: Seq<(String, Histogram)>, i: int)
    requires
        unique_names(entries),
        0 <= i < entries.len(),
    ensures
        as_map(entries).dom().contains(entries[i].0@),
        as_map(entries)[entries[i].0@] == snapshot_of(entries[i].1),
    decreases entries.len(),
{
    let front = entries.drop_last();
    if i < entries.len() - 1 {
        assert(unique_names(front)) by {
            assert forall|x: int, y: int| 0 <= x < y < front.len() implies front[x].0@
                != front[y].0@ by {
                assert(entries[x].0@ != entries[y].0@);
            }
        }
        lemma_as_map_entry(front, i);
        assert(entries[i].0@ != entries[entries.len() - 1].0@);
    }
}

/// Where no name stands twice, to replace the entry of a name is to put
/// the new snapshot into the map under that name.
proof fn lemma_as_map_update(
    entries: Seq<(String, Histogram)>,
    i: int,
    replacement: (String, Histogram),
)
    requires
        unique_names(entries),
        0 <= i < entries.len(),
        replacement.0@ == entries[i].0@,
    ensures
        unique_names(entries.update(i, replacement)),
        as_map(entries.update(i, replacement)) =~= as_map(entries).insert(
            replacement.0@,
            snapshot_of(replacement.1),
        ),
    decreases entries.len(),
{
    let updated = entries.update(i, replacement);
    let front = entries.drop_last();
    assert(unique_names(updated)) by {
        assert forall|x: int, y: int| 0 <= x < y < updated.len() implies updated[x].0@
            != updated[y].0@ by {
            assert(entries[x].0@ != entries[y].0@);
        }
    }
    if i == entries.len() - 1 {
        assert(updated.drop_last() =~= front);
    } else {
        assert(unique_names(front)) by {
            assert forall|x: int, y: int| 0 <= x < y < front.len() implies front[x].0@
                != front[y].0@ by {
                assert(entries[x].0@ != entries[y].0@);
            }
        }
        lemma_as_map_update(front, i, replacement);
        assert(updated.drop_last() =~= front.update(i, replacement));
        assert(updated.last() == entries.last());
        assert(entries[i].0@ != entries[entries.len() - 1].0@);
    }
}

/// Snapshots by name, every name once.
struct Table {
    entries: Vec<(String, Histogram)>,
}

impl Table {
    spec fn wf(&self) -> bool {
        unique_names(self.entries@)
    }

    spec fn map(&self) -> Map<Seq<char>, SnapshotView> {
        as_map(self.entries@)
    }

    fn new() -> (r: Table)
        ensures
            r.wf(),
            r.map() == Map::<Seq<char>, SnapshotView>::empty(),
    {
        Table { entries: Vec::new() }
    }

    /// Where the name stands.
    fn find(&self, name: &String) -> (r: Option<usize>)
        requires
            self.wf(),
        ensures
            self.map().dom().contains(name@) <==> r is Some,
            r is Some ==> r->Some_0 < self.entries@.len() && self.entries@[r->Some_0 as int].0@
                == name@ && self.map()[name@] == snapshot_of(self.entries@[r->Some_0 as int].1),
    {
        let mut i: usize = 0;
        while i < self.entries.len()
            invariant
                i <= self.entries.len(),
                self.wf(),
                forall|j: int| 0 <= j < i ==> self.entries@[j].0@ != name@,
            decreases self.entries.len() - i,
        {
            if self.entries[i].0 == *name {
                proof {
                    lemma_as_map_entry(self.entries@, i as int);
                }
                return Some(i);
            }
            i = i + 1;
        }
        proof {
            lemma_as_map_names(self.entries@, name@);
        }
        None
    }

    /// Puts the snapshot under the name, in place of the one that stood
    /// there.
    fn insert(&mut self, name: String, snapshot: Histogram)
        requires
            old(self).wf(),
        ensures
            final(self).wf(),
            final(self).map() =~= old(self).map().insert(name@, snapshot_of(snapshot)),
    {
        match self.find(&name) {
            Some(i) => {
                proof {
                    lemma_as_map_update(self.entries@, i as int, (name, snapshot));
                }
                self.entries[i] = (name, snapshot);
            },
            None => {
                proof {
                    let pushed = self.entries@.push((name, snapshot));
                    assert(pushed.drop_last() =~= self.entries@);
                    assert forall|x: int, y: int| 0 <= x < y < pushed.len() implies pushed[x].0@
                        != pushed[y].0@ by {
                        if y == pushed.len() - 1 {
                            lemma_as_map_names(self.entries@, name@);
                            assert(self.entries@[x].0@ != name@);
                        }
                    }
                }
                self.entries.push((name, snapshot));
            },
        }
    }

    /// The snapshot under the name.
    fn get(&self, name: &String) -> (r: Option<&Histogram>)
        requires
            self.wf(),
        ensures
            self.map().dom().contains(name@) <==> r is Some,
            r is Some ==> snapshot_of(*r->Some_0) == self.map()[name@],
    {
        match self.find(name) {
            Some(i) => Some(&self.entries[i].1),
            None => None,
        }
    }
}

/// The latest snapshot of every histogram by name, and what was counted
/// between the latest two.
pub struct Snapshots {
    timestamp: UnixInstant,
    previous: Table,
    deltas: Table,
}

impl Snapshots {
    /// No name stands twice in what is kept.
    pub closed spec fn wf(&self) -> bool {
        self.previous.wf() && self.deltas.wf()
    }

    /// The moment of the latest snapshots.
    pub closed spec fn spec_timestamp(&self) -> UnixInstant {
        self.timestamp
    }

    /// The latest snapshots by name.
    pub closed spec fn spec_previous(&self) -> Map<Seq<char>, SnapshotView> {
        self.previous.map()
    }

    /// What was counted between the latest two snapshots, by name.
    pub closed spec fn spec_deltas(&self) -> Map<Seq<char>, SnapshotView> {
        self.deltas.map()
    }

    /// The first snapshots, taken at `timestamp`. Until the next are
    /// taken, each stands for what was counted, too.
    pub fn new(timestamp: UnixInstant, current: &[(String, Histogram)]) -> (r: Snapshots)
        ensures
            r.wf(),
            r.spec_timestamp() == timestamp,
            r.spec_previous() == as_map(current@),
            r.spec_deltas() == as_map(current@),
    {
        let mut previous = Table::new();
        let mut deltas = Table::new();
        let mut i: usize = 0;
        proof {
            assert(current@.take(0) =~= Seq::<(String, Histogram)>::empty());
        }
        while i < current.len()
            invariant
                i <= current.len(),
                previous.wf(),
                deltas.wf(),
                previous.map() =~= as_map(current@.take(i as int)),
                deltas.map() =~= as_map(current@.take(i as int)),
            decreases current.len() - i,
        {
            proof {
                assert(current@.take(i + 1).drop_last() =~= current@.take(i as int));
            }
            previous.insert(current[i].0.clone(), current[i].1.duplicate());
            deltas.insert(current[i].0.clone(), current[i].1.duplicate());
            i = i + 1;
        }
        proof {
            assert(current@.take(current.len() as int) =~= current@);
        }
        Snapshots { timestamp, previous, deltas }
    }

    /// Takes the snapshots `current` at `timestamp`. For every name that
    /// had a snapshot before, what is kept as counted is the new snapshot
    /// less the one before. The new snapshots are then the latest.
    ///
    /// A histogram keeps its layout from one snapshot to the next.
    pub fn update(&mut self, timestamp: UnixInstant, current: &[(String, Histogram)])
        requires
            old(self).wf(),
            forall|i: int|
                0 <= i < current@.len() && old(self).spec_previous().dom().contains(
                    (#[trigger] current@[i]).0@,
                ) ==> old(self).spec_previous()[current@[i].0@].layout == current@[i].1.layout(),
        ensures
            final(self).wf(),
            final(self).spec_timestamp() == timestamp,
            final(self).spec_previous() == as_map(current@),
            final(self).spec_deltas() == updated_deltas(
                old(self).spec_deltas(),
                old(self).spec_previous(),
                current@,
            ),
    {
        let ghost before = self.previous.map();
        let ghost kept = self.deltas.map();
        let mut latest = Table::new();
        let mut i: usize = 0;
        proof {
            assert(current@.take(0) =~= Seq::<(String, Histogram)>::empty());
        }
        while i < current.len()
            invariant
                i <= current.len(),
                self.previous.wf(),
                self.deltas.wf(),
                latest.wf(),
                self.previous.map() == before,
                forall|k: int|
                    0 <= k < current@.len() && before.dom().contains((#[trigger] current@[k]).0@)
                        ==> before[current@[k].0@].layout == current@[k].1.layout(),
                latest.map() =~= as_map(current@.take(i as int)),
                self.deltas.map() =~= updated_deltas(kept, before, current@.take(i as int)),
            decreases current.len() - i,
        {
            proof {
                assert(current@.take(i + 1).drop_last() =~= current@.take(i as int));
                assert(current@.take(i + 1).last() == current@[i as int]);
            }
            match self.previous.get(&current[i].0) {
                Some(earlier) => {
                    let delta = current[i].1.wrapping_sub(earlier);
                    self.deltas.insert(current[i].0.clone(), delta);
                },
                None => {},
            }
            latest.insert(current[i].0.clone(), current[i].1.duplicate());
            i = i + 1;
        }
        proof {
            assert(current@.take(current.len() as int) =~= current@);
        }
        self.timestamp = timestamp;
        self.previous = latest;
    }

    /// The moment of the latest snapshots.
    pub fn timestamp(&self) -> (r: UnixInstant)
        ensures
            r == self.spec_timestamp(),
    {
        self.timestamp
    }

    /// The latest snapshot of the named histogram.
    pub fn previous(&self, name: &String) -> (r: Option<&Histogram>)
        requires
            self.wf(),
        ensures
            self.spec_previous().dom().contains(name@) <==> r is Some,
            r is Some ==> snapshot_of(*r->Some_0) == self.spec_previous()[name@],
    {
        self.previous.get(name)
    }

    /// What was counted in the named histogram between the latest two
    /// snapshots.
    pub fn delta(&self, name: &String) -> (r: Option<&Histogram>)
        requires
            self.wf(),
        ensures
            self.spec_deltas().dom().contains(name@) <==> r is Some,
            r is Some ==> snapshot_of(*r->Some_0) == self.spec_deltas()[name@],
    {
        self.deltas.get(name)
    }
}

} // verus!
