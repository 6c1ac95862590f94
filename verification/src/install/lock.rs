//! The record of what was installed from where.

use crate::install::source;
use crate::install::source::{Forge, GitSource, SourceView};
use crate::install::source_laws;
use crate::table::Table;
use crate::text;
use vstd::prelude::*;

verus! {

/// The version of the record's format.
pub const LOCK_VERSION: u32 = 1;

/// The record of one installed plugin.
#[derive(Debug)]
pub struct InstalledEntry {
    pub source: GitSource,
    /// The version that was installed.
    pub resolved_version: String,
    /// When it was installed.
    pub installed_at: String,
}

/// The mathematical content of an [`InstalledEntry`].
#[verifier::ext_equal]
pub struct EntryView {
    pub source: SourceView,
    pub resolved_version: Seq<char>,
    pub installed_at: Seq<char>,
}

impl View for InstalledEntry {
    type V = EntryView;

    open spec fn view(&self) -> EntryView {
        EntryView {
            source: self.source@,
            resolved_version: self.resolved_version@,
            installed_at: self.installed_at@,
        }
    }
}

impl Clone for InstalledEntry {
    fn clone(&self) -> (r: Self)
        ensures
            r@ == self@,
    {
        InstalledEntry {
            source: self.source.clone(),
            resolved_version: self.resolved_version.clone(),
            installed_at: self.installed_at.clone(),
        }
    }
}

/// The record of all installed plugins.
#[derive(Debug)]
pub struct LockFile {
    pub version: u32,
    pub plugins: Table<InstalledEntry>,
}

impl Default for LockFile {
    fn default() -> (r: Self)
        ensures
            r.version == LOCK_VERSION,
            r.plugins@ == Map::<Seq<char>, InstalledEntry>::empty(),
    {
        LockFile { version: LOCK_VERSION, plugins: Table::new() }
    }
}

/// Whether a name is among the given ones.
pub open spec fn listed(names: Seq<String>, name: Seq<char>) -> bool {
    exists|i: int| 0 <= i < names.len() && (#[trigger] names[i])@ == name
}

/// Whether a stored record is kept: its directory is there, and its address is still accepted.
pub open spec fn kept(
    stored: Map<Seq<char>, InstalledEntry>,
    present: Seq<String>,
    hosts: Seq<(Seq<char>, Forge)>,
    name: Seq<char>,
) -> bool {
    &&& stored.dom().contains(name)
    &&& listed(present, name)
    &&& source::parsed(stored[name].source.url@, hosts) is Ok
}

/// Whether records are what reading stored ones gives: those that are kept, each with its source
/// rebuilt from its address.
pub open spec fn read_as(
    stored: Map<Seq<char>, InstalledEntry>,
    present: Seq<String>,
    hosts: Seq<(Seq<char>, Forge)>,
    read: Map<Seq<char>, InstalledEntry>,
) -> bool {
    &&& forall|name: Seq<char>|
        #![trigger read.dom().contains(name)]
        read.dom().contains(name) <==> kept(stored, present, hosts, name)
    &&& forall|name: Seq<char>|
        #![trigger read[name]]
        read.dom().contains(name) ==> {
            &&& read[name].source@ == source::parsed(stored[name].source.url@, hosts)->Ok_0
            &&& read[name].resolved_version@ == stored[name].resolved_version@
            &&& read[name].installed_at@ == stored[name].installed_at@
        }
}

/// Whether a list of names holds one.
pub fn is_listed(names: &[String], name: &str) -> (r: bool)
    ensures
        r == listed(names@, name@),
{
    let mut i: usize = 0;
    while i < names.len()
        invariant
            i <= names@.len(),
            forall|j: int| 0 <= j < i ==> (#[trigger] names@[j])@ != name@,
        decreases names@.len() - i,
    {
        if text::str_eq(names[i].as_str(), name) {
            return true;
        }
        i += 1;
    }
    false
}

/// The records that hold, given what was stored.
///
/// `stored` is `None` when there was no readable record. `present` names the plugin
/// directories that exist. Nothing stored is trusted: a record without directory goes, one
/// whose address is not accepted goes, and every source is rebuilt from its address.
pub fn read_lock(
    stored: Option<LockFile>,
    present: &[String],
    allowed: &[(String, Forge)],
) -> (r: LockFile)
    ensures
        match stored {
            None => r.version == LOCK_VERSION && r.plugins@ == Map::<
                Seq<char>,
                InstalledEntry,
            >::empty(),
            Some(old) => {
                &&& r.version == old.version
                &&& read_as(
                    old.plugins@,
                    present@,
                    source::host_views(allowed@),
                    r.plugins@,
                )
            },
        },
{
    let lock = match stored {
        None => {
            return LockFile::default();
        },
        Some(l) => l,
    };
    let ghost old = lock.plugins@;
    let ghost hosts = source::host_views(allowed@);
    let mut keep: Table<InstalledEntry> = Table::new();
    let mut i: usize = 0;
    let n: usize = lock.plugins.len();
    while i < n
        invariant
            i <= n,
            n == lock.plugins.rows().len(),
            old == lock.plugins@,
            hosts == source::host_views(allowed@),
            forall|name: Seq<char>|
                #![trigger keep@.dom().contains(name)]
                keep@.dom().contains(name) <==> kept(old, present@, hosts, name) && row_before(
                    lock.plugins.rows(),
                    i as int,
                    name,
                ),
            forall|name: Seq<char>|
                #![trigger keep@[name]]
                keep@.dom().contains(name) ==> {
                    &&& keep@[name].source@ == source::parsed(old[name].source.url@, hosts)->Ok_0
                    &&& keep@[name].resolved_version@ == old[name].resolved_version@
                    &&& keep@[name].installed_at@ == old[name].installed_at@
                },
        decreases n - i,
    {
        let ghost before = keep@;
        let ghost rows = lock.plugins.rows();
        let row = lock.plugins.row(i);
        let ghost name = row.0@;
        assert forall|m: Seq<char>| #[trigger] row_before(rows, i + 1, m) <==> row_before(
            rows,
            i as int,
            m,
        ) || m == name by {
            if row_before(rows, i + 1, m) {
                let j = choose|j: int| 0 <= j < i + 1 && (#[trigger] rows[j]).0@ == m;
                if j < i {
                    assert(rows[j].0@ == m);
                }
            }
            if row_before(rows, i as int, m) {
                let j = choose|j: int| 0 <= j < i && (#[trigger] rows[j]).0@ == m;
                assert(rows[j].0@ == m);
            }
            assert(rows[i as int].0@ == name);
        }
        if is_listed(present, row.0.as_str()) {
            match source::parse_git_url_with(row.1.source.url.as_str(), allowed) {
                Ok(s) => {
                    keep.insert(
                        row.0.clone(),
                        InstalledEntry {
                            source: s,
                            resolved_version: row.1.resolved_version.clone(),
                            installed_at: row.1.installed_at.clone(),
                        },
                    );
                },
                Err(_) => {},
            }
        }
        i += 1;
    }
    proof {
        let rows = lock.plugins.rows();
        assert forall|name: Seq<char>|
            #![trigger keep@.dom().contains(name)]
            keep@.dom().contains(name) <==> kept(old, present@, hosts, name) by {
            if kept(old, present@, hosts, name) {
                lock.plugins.lemma_rows_cover(name);
                let j = choose|j: int| 0 <= j < rows.len() && (#[trigger] rows[j]).0@ == name;
                assert(row_before(rows, i as int, name));
            }
        }
    }
    LockFile { version: lock.version, plugins: keep }
}

/// Whether a name is among the first rows.
pub open spec fn row_before(rows: Seq<(String, InstalledEntry)>, i: int, name: Seq<char>) -> bool {
    exists|j: int| 0 <= j < i && (#[trigger] rows[j]).0@ == name
}

/// Records an installation.
pub fn update_lock(lock: &mut LockFile, name: String, entry: InstalledEntry)
    ensures
        final(lock).version == LOCK_VERSION,
        final(lock).plugins@ == old(lock).plugins@.insert(name@, entry),
{
    lock.version = LOCK_VERSION;
    lock.plugins.insert(name, entry);
}

/// Drops the record of a plugin, so that nothing of the same name inherits its source.
pub fn forget(lock: &mut LockFile, name: &str)
    ensures
        final(lock).version == LOCK_VERSION,
        final(lock).plugins@ == old(lock).plugins@.remove(name@),
{
    lock.version = LOCK_VERSION;
    lock.plugins.remove(name);
}

/// The address that a plugin is recorded to come from.
pub fn prior_url(lock: &LockFile, name: &str) -> (r: Option<String>)
    ensures
        match r {
            Some(u) => lock.plugins@.dom().contains(name@) && u@
                == lock.plugins@[name@].source.url@,
            None => !lock.plugins@.dom().contains(name@),
        },
{
    match lock.plugins.get(name) {
        Some(e) => Some(e.source.url.clone()),
        None => None,
    }
}

/// A record whose source was parsed under the same hosts survives being read back, unchanged,
/// as long as the plugin's directory exists: market and repository sources alike.
pub proof fn record_survives_reading(
    input: Seq<char>,
    extra: Option<Seq<char>>,
    stored: Map<Seq<char>, InstalledEntry>,
    present: Seq<String>,
    name: Seq<char>,
)
    requires
        source::parsed(input, source::hosts_of(extra)) is Ok,
        stored.dom().contains(name),
        stored[name].source@ == source::parsed(input, source::hosts_of(extra))->Ok_0,
        listed(present, name),
    ensures
        kept(stored, present, source::hosts_of(extra), name),
        source::parsed(stored[name].source.url@, source::hosts_of(extra))->Ok_0
            == stored[name].source@,
{
    source_laws::address_reparses_under_settings(input, extra);
}

/// Whatever is stored, a record that is read back has an accepted source: its address parses
/// again, to itself.
pub proof fn read_records_are_accepted(
    stored: Map<Seq<char>, InstalledEntry>,
    present: Seq<String>,
    extra: Option<Seq<char>>,
    name: Seq<char>,
)
    requires
        kept(stored, present, source::hosts_of(extra), name),
    ensures
        ({
            let v = source::parsed(stored[name].source.url@, source::hosts_of(extra))->Ok_0;
            source::parsed(v.url, source::hosts_of(extra)) == Ok::<SourceView, Seq<char>>(v)
        }),
{
    source_laws::address_reparses_under_settings(stored[name].source.url@, extra);
}

/// Whether records were stored one after another, each time by reading what is stored and
/// recording an installation: `files` holds what is stored before the first and after each
/// update, `reads` what each of them read.
pub open spec fn is_history(
    files: Seq<Map<Seq<char>, InstalledEntry>>,
    reads: Seq<Map<Seq<char>, InstalledEntry>>,
    updates: Seq<(Seq<char>, InstalledEntry)>,
    present: Seq<String>,
    hosts: Seq<(Seq<char>, Forge)>,
) -> bool {
    &&& files.len() == updates.len() + 1
    &&& reads.len() == updates.len()
    &&& forall|i: int|
        0 <= i < updates.len() ==> {
            &&& read_as(#[trigger] files[i], present, hosts, reads[i])
            &&& files[i + 1] == reads[i].insert(updates[i].0, updates[i].1)
        }
}

/// Whether an installation is recorded last for its plugin.
pub open spec fn is_last_update(updates: Seq<(Seq<char>, InstalledEntry)>, i: int) -> bool {
    &&& 0 <= i < updates.len()
    &&& forall|j: int| i < j < updates.len() ==> (#[trigger] updates[j]).0 != updates[i].0
}

/// Updates of the record lose nothing, however many follow each other: every plugin that was
/// installed, and every record that was there before and held, is still there when all is read
/// again, and what was recorded last for a plugin is what is read.
pub proof fn updates_lose_nothing(
    files: Seq<Map<Seq<char>, InstalledEntry>>,
    reads: Seq<Map<Seq<char>, InstalledEntry>>,
    updates: Seq<(Seq<char>, InstalledEntry)>,
    inputs: Seq<Seq<char>>,
    present: Seq<String>,
    extra: Option<Seq<char>>,
    read: Map<Seq<char>, InstalledEntry>,
)
    requires
        is_history(files, reads, updates, present, source::hosts_of(extra)),
        inputs.len() == updates.len(),
        forall|i: int|
            0 <= i < updates.len() ==> {
                &&& listed(present, (#[trigger] updates[i]).0)
                &&& source::parsed(inputs[i], source::hosts_of(extra)) == Ok::<
                    SourceView,
                    Seq<char>,
                >(updates[i].1.source@)
            },
        read_as(files.last(), present, source::hosts_of(extra), read),
    ensures
        forall|i: int|
            0 <= i < updates.len() ==> read.dom().contains((#[trigger] updates[i]).0),
        forall|name: Seq<char>| #[trigger]
            kept(files[0], present, source::hosts_of(extra), name) ==> read.dom().contains(name),
        forall|i: int| #[trigger]
            is_last_update(updates, i) ==> read[updates[i].0]@ == updates[i].1@,
{
    let hosts = source::hosts_of(extra);
    let n = updates.len();
    assert forall|i: int| 0 <= i < n implies source::parsed(
        (#[trigger] updates[i]).1.source.url@,
        hosts,
    ) == Ok::<SourceView, Seq<char>>(updates[i].1.source@) by {
        source_laws::address_reparses_under_settings(inputs[i], extra);
    }
    assert forall|i: int| 0 <= i < n implies read.dom().contains((#[trigger] updates[i]).0) by {
        assert(read_as(files[i], present, hosts, reads[i]));
        assert(kept(files[i + 1], present, hosts, updates[i].0));
        lemma_stays(files, reads, updates, present, extra, updates[i].0, i + 1, n as int);
    }
    assert forall|name: Seq<char>| #[trigger] kept(
        files[0],
        present,
        hosts,
        name,
    ) implies read.dom().contains(name) by {
        lemma_stays(files, reads, updates, present, extra, name, 0, n as int);
    }
    assert forall|i: int| #[trigger] is_last_update(updates, i) implies read[updates[i].0]@
        == updates[i].1@ by {
        lemma_unchanged(files, reads, updates, present, extra, i, n as int);
        assert(read.dom().contains(updates[i].0));
    }
}

/// A record that holds at one time holds at every later one.
proof fn lemma_stays(
    files: Seq<Map<Seq<char>, InstalledEntry>>,
    reads: Seq<Map<Seq<char>, InstalledEntry>>,
    updates: Seq<(Seq<char>, InstalledEntry)>,
    present: Seq<String>,
    extra: Option<Seq<char>>,
    name: Seq<char>,
    from: int,
    to: int,
)
    requires
        is_history(files, reads, updates, present, source::hosts_of(extra)),
        forall|i: int|
            0 <= i < updates.len() ==> {
                &&& listed(present, (#[trigger] updates[i]).0)
                &&& source::parsed(updates[i].1.source.url@, source::hosts_of(extra)) == Ok::<
                    SourceView,
                    Seq<char>,
                >(updates[i].1.source@)
            },
        0 <= from <= to <= updates.len(),
        kept(files[from], present, source::hosts_of(extra), name),
    ensures
        kept(files[to], present, source::hosts_of(extra), name),
    decreases to - from,
{
    if from < to {
        let hosts = source::hosts_of(extra);
        lemma_stays(files, reads, updates, present, extra, name, from, to - 1);
        let before = files[to - 1];
        assert(read_as(before, present, hosts, reads[to - 1]));
        assert(files[to] == reads[to - 1].insert(updates[to - 1].0, updates[to - 1].1));
        assert(reads[to - 1].dom().contains(name));
        source_laws::address_reparses_under_settings(before[name].source.url@, extra);
        assert(reads[to - 1][name].source@ == source::parsed(before[name].source.url@, hosts)->Ok_0);
        assert(reads[to - 1][name].source@.url == reads[to - 1][name].source.url@);
    }
}

/// What was recorded last for a plugin is stored at every later time.
proof fn lemma_unchanged(
    files: Seq<Map<Seq<char>, InstalledEntry>>,
    reads: Seq<Map<Seq<char>, InstalledEntry>>,
    updates: Seq<(Seq<char>, InstalledEntry)>,
    present: Seq<String>,
    extra: Option<Seq<char>>,
    i: int,
    to: int,
)
    requires
        is_history(files, reads, updates, present, source::hosts_of(extra)),
        forall|i: int|
            0 <= i < updates.len() ==> {
                &&& listed(present, (#[trigger] updates[i]).0)
                &&& source::parsed(updates[i].1.source.url@, source::hosts_of(extra)) == Ok::<
                    SourceView,
                    Seq<char>,
                >(updates[i].1.source@)
            },
        is_last_update(updates, i),
        i < to <= updates.len(),
    ensures
        kept(files[to], present, source::hosts_of(extra), updates[i].0),
        files[to][updates[i].0]@ == updates[i].1@,
    decreases to - i,
{
    let hosts = source::hosts_of(extra);
    let name = updates[i].0;
    assert(files[to] == reads[to - 1].insert(updates[to - 1].0, updates[to - 1].1)) by {
        assert(read_as(files[to - 1], present, hosts, reads[to - 1]));
    }
    if to > i + 1 {
        lemma_unchanged(files, reads, updates, present, extra, i, to - 1);
        let before = files[to - 1];
        assert(read_as(before, present, hosts, reads[to - 1]));
        assert(reads[to - 1].dom().contains(name));
        assert(updates[to - 1].0 != name);
        assert(before[name].source@ == updates[i].1.source@);
        assert(before[name].source@.url == before[name].source.url@);
        assert(updates[i].1.source@.url == updates[i].1.source.url@);
        assert(reads[to - 1][name].source@ == updates[i].1.source@);
        assert(reads[to - 1][name].source@.url == reads[to - 1][name].source.url@);
    }
}

} // verus!
