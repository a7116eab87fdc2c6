//! The two migration backends.
//!
//! `DiskSource` mirrors a migrations directory: the caller reads the raw
//! directory entries and script files, and this module holds every decision
//! made about them — which entries are migrations, in what order they run,
//! and which file holds a migration's up or down script.
//!
//! `EmbeddedSource` holds an asset tree in memory (for example, one built
//! from assets embedded in the binary at compile time) and implements
//! `MigrationSource` over it directly.

use vstd::prelude::*;
use vstd::string::StrSliceExecFns;
use vstd::string::StringExecFns;

use crate::text::{lemma_seq_char_le_total, lemma_seq_char_le_trans, seq_char_le, str_le};
use crate::types::{digit_prefixed, Migration, MigrationError, MigrationKind, MigrationSource};

verus! {

broadcast use
    vstd::seq_lib::group_filter_ensures,
    Seq::lemma_filter_push,
    Seq::lemma_push_map_commute,
    vstd::seq_lib::group_to_multiset_ensures,
;

/// Whether a name begins with an ASCII decimal digit: the discovery filter.
pub fn starts_with_digit(name: &str) -> (r: bool)
    ensures
        r == digit_prefixed(name@),
{
    if name.unicode_len() == 0 {
        return false;
    }
    let c = name.get_char(0);
    '0' <= c && c <= '9'
}

/// One raw directory entry, as the filesystem reports it: its file name
/// and whether it is a directory.
#[derive(Debug, Clone, PartialEq, Eq)]
pub struct FsEntry {
    /// The entry's file name (not its full path).
    pub name: String,
    /// Whether the entry is a directory.
    pub is_dir: bool,
}

/// The migration a raw directory entry stands for: a file is a single
/// up-only migration, a directory a paired one.
pub open spec fn spec_fs_migration(e: FsEntry) -> Migration {
    Migration {
        name: e.name,
        kind: if e.is_dir {
            MigrationKind::Paired
        } else {
            MigrationKind::File
        },
    }
}

/// The migrations a directory listing contains: each entry classified,
/// keeping only those whose name begins with an ASCII digit.
pub open spec fn spec_kept_migrations(entries: Seq<FsEntry>) -> Seq<Migration> {
    entries.map_values(|e: FsEntry| spec_fs_migration(e)).filter(
        |m: Migration| digit_prefixed(m.name@),
    )
}

/// Whether a migration listing is in ascending name order: the order in
/// which migrations are applied.
pub open spec fn sorted_by_name(ms: Seq<Migration>) -> bool {
    forall|i: int, j: int|
        0 <= i < j < ms.len() ==> seq_char_le(#[trigger] ms[i].name@, #[trigger] ms[j].name@)
}

/// Where a migration belongs in a name-sorted listing: the first position
/// whose entry's name does not sort at or before `m`'s.
fn insertion_point(out: &Vec<Migration>, m: &Migration) -> (p: usize)
    ensures
        p <= out@.len(),
        forall|k: int| 0 <= k < p ==> seq_char_le(#[trigger] out@[k].name@, m.name@),
        p < out@.len() ==> seq_char_le(m.name@, out@[p as int].name@),
{
    let mut p: usize = 0;
    loop
        invariant
            p <= out@.len(),
            forall|k: int| 0 <= k < p ==> seq_char_le(#[trigger] out@[k].name@, m.name@),
        decreases out@.len() - p,
    {
        if p == out.len() {
            return p;
        }
        if !str_le(out[p].name.as_str(), m.name.as_str()) {
            proof {
                lemma_seq_char_le_total(out@[p as int].name@, m.name@);
            }
            return p;
        }
        p = p + 1;
    }
}

/// Inserts a migration into a name-sorted listing, keeping it sorted.
fn insert_sorted(out: &mut Vec<Migration>, m: Migration)
    requires
        sorted_by_name(old(out)@),
    ensures
        sorted_by_name(final (out)@),
        final (out)@.to_multiset() == old(out)@.to_multiset().insert(m),
        forall|k: int|
            0 <= k < final (out)@.len() ==> (final (out)@[k] == m || old(out)@.contains(
                #[trigger] final (out)@[k],
            )),
{
    let ghost orig = out@;
    let p = insertion_point(out, &m);
    let ghost pos = p as int;
    out.insert(p, m);
    proof {
        let new = out@;
        assert(new == orig.insert(pos, m));
        orig.insert_ensures(pos, m);
        assert forall|i: int, j: int| 0 <= i < j < new.len() implies seq_char_le(
            #[trigger] new[i].name@,
            #[trigger] new[j].name@,
        ) by {
            if i < pos && j < pos {
            } else if i == pos && j > pos {
                // m goes before orig[j - 1]; at pos, seq_char_le(m, orig[pos]) holds
                // by totality, and orig is sorted from pos on.
                if pos < orig.len() {
                    if j - 1 > pos {
                        lemma_seq_char_le_trans(m.name@, orig[pos].name@, orig[j - 1].name@);
                    }
                }
            } else if i < pos && j == pos {
            } else if i < pos && j > pos {
                if pos < orig.len() {
                    lemma_seq_char_le_trans(orig[i].name@, m.name@, orig[pos].name@);
                    if j - 1 > pos {
                        lemma_seq_char_le_trans(orig[i].name@, orig[pos].name@, orig[j - 1].name@);
                    }
                } else {
                    assert(false);
                }
            } else {
                // both from the original listing
            }
        }
        assert(new.to_multiset() == orig.to_multiset().insert(m));
        assert forall|k: int|
            0 <= k < new.len() implies (new[k] == m || orig.contains(#[trigger] new[k])) by {
            if k < pos {
                assert(new[k] == orig[k]);
            } else if k > pos {
                assert(new[k] == orig[k - 1]);
            }
        }
    }
}

/// Classifies and orders a raw directory listing: entries whose name does
/// not begin with an ASCII digit are dropped, files become `File`
/// migrations, directories become `Paired` ones, and the result is sorted
/// by name in ascending order — the order in which the migrations run.
/// The result is the same for the same listing, however often it is taken.
pub fn classify_entries(entries: &Vec<FsEntry>) -> (r: Vec<Migration>)
    ensures
        sorted_by_name(r@),
        r@.to_multiset() == spec_kept_migrations(entries@).to_multiset(),
        forall|k: int| 0 <= k < r@.len() ==> digit_prefixed(#[trigger] r@[k].name@),
{
    let keep = Ghost(|m: Migration| digit_prefixed(m.name@));
    let to_mig = Ghost(|e: FsEntry| spec_fs_migration(e));
    let mut out: Vec<Migration> = Vec::new();
    let mut i: usize = 0;
    proof {
        assert(entries@.take(0) =~= Seq::<FsEntry>::empty());
        assert(spec_kept_migrations(entries@.take(0)) =~= Seq::<Migration>::empty());
        assert(out@.to_multiset() =~= spec_kept_migrations(entries@.take(0)).to_multiset());
    }
    while i < entries.len()
        invariant
            i <= entries@.len(),
            keep@ == (|m: Migration| digit_prefixed(m.name@)),
            to_mig@ == (|e: FsEntry| spec_fs_migration(e)),
            sorted_by_name(out@),
            out@.to_multiset() == spec_kept_migrations(entries@.take(i as int)).to_multiset(),
            forall|k: int| 0 <= k < out@.len() ==> digit_prefixed(#[trigger] out@[k].name@),
        decreases entries@.len() - i,
    {
        let ghost prev = out@;
        let e = &entries[i];
        let kept = starts_with_digit(e.name.as_str());
        if kept {
            let m = Migration {
                name: e.name.clone(),
                kind: if e.is_dir {
                    MigrationKind::Paired
                } else {
                    MigrationKind::File
                },
            };
            proof {
                assert(m == spec_fs_migration(entries@[i as int]));
            }
            insert_sorted(&mut out, m);
        }
        proof {
            let taken = entries@.take(i as int);
            let ei = entries@[i as int];
            assert(entries@.take(i + 1) =~= taken.push(ei));
            assert(entries@.take(i + 1).map_values(to_mig@) == taken.push(ei).map_values(
                to_mig@,
            ));
            assert(entries@.take(i + 1).map_values(to_mig@).filter(keep@) == taken.map_values(
                to_mig@,
            ).push(to_mig@(ei)).filter(keep@));
            if keep@(to_mig@(ei)) {
                assert(spec_kept_migrations(entries@.take(i + 1)) == spec_kept_migrations(
                    taken,
                ).push(to_mig@(ei)));
            } else {
                assert(spec_kept_migrations(entries@.take(i + 1)) == spec_kept_migrations(taken));
            }
        }
        i = i + 1;
    }
    proof {
        assert(entries@.take(entries@.len() as int) =~= entries@);
    }
    out
}

/// A migration source that mirrors a directory on disk.
///
/// The struct holds the directory's path; reading the directory and its
/// files is the caller's part. `classify_entries` turns the raw directory
/// listing into the ordered migration listing, and `up_script_path` /
/// `down_script_path` say which file holds a migration's script.
pub struct DiskSource {
    dir: String,
}

/// `dir` with `rest` appended after a path separator.
pub open spec fn spec_join(dir: Seq<char>, rest: Seq<char>) -> Seq<char> {
    dir + "/"@ + rest
}

/// The file a migration's up script lives in: the entry itself for a
/// `File` migration, `up.surql` inside the entry's directory for a
/// `Paired` one.
pub open spec fn spec_up_path(dir: Seq<char>, m: Migration) -> Seq<char> {
    match m.kind {
        MigrationKind::File => spec_join(dir, m.name@),
        MigrationKind::Paired => spec_join(dir, m.name@ + "/up.surql"@),
    }
}

/// The file a migration's down script lives in, if it can have one:
/// nothing for a `File` migration, `down.surql` inside the entry's
/// directory for a `Paired` one.
pub open spec fn spec_down_path(dir: Seq<char>, m: Migration) -> Option<Seq<char>> {
    match m.kind {
        MigrationKind::File => None,
        MigrationKind::Paired => Some(spec_join(dir, m.name@ + "/down.surql"@)),
    }
}

impl DiskSource {
    /// The path of the migrations directory this source mirrors.
    pub closed spec fn spec_dir(&self) -> Seq<char> {
        self.dir@
    }

    /// Create a source for the migrations directory at `path`.
    pub fn new(path: String) -> (r: Self)
        ensures
            r.spec_dir() == path@,
    {
        DiskSource { dir: path }
    }

    /// The migrations directory this source mirrors.
    pub fn dir(&self) -> (r: &String)
        ensures
            r@ == self.spec_dir(),
    {
        &self.dir
    }

    /// The path of the file holding `migration`'s up script.
    pub fn up_script_path(&self, migration: &Migration) -> (r: String)
        ensures
            r@ == spec_up_path(self.spec_dir(), *migration),
    {
        let mut p = self.dir.clone();
        p.append("/");
        p.append(migration.name.as_str());
        match migration.kind {
            MigrationKind::File => p,
            MigrationKind::Paired => {
                p.append("/up.surql");
                p
            },
        }
    }

    /// The path of the file holding `migration`'s down script, or `None`
    /// for an up-only `File` migration, which has no down script.
    pub fn down_script_path(&self, migration: &Migration) -> (r: Option<String>)
        ensures
            match r {
                Some(p) => spec_down_path(self.spec_dir(), *migration) == Some(p@),
                None => spec_down_path(self.spec_dir(), *migration) is None,
            },
    {
        match migration.kind {
            MigrationKind::File => None,
            MigrationKind::Paired => {
                let mut p = self.dir.clone();
                p.append("/");
                p.append(migration.name.as_str());
                p.append("/down.surql");
                Some(p)
            },
        }
    }
}

} // verus!

verus! {

/// One file inside a paired migration's directory in an embedded tree.
#[derive(Debug, Clone, PartialEq, Eq)]
pub struct EmbeddedFile {
    /// The file's name within its directory (e.g. `up.surql`).
    pub name: String,
    /// The file's text.
    pub content: String,
}

/// One top-level entry of an embedded asset tree: a single script file, or
/// a directory of script files.
#[derive(Debug, Clone, PartialEq, Eq)]
pub enum EmbeddedEntry {
    /// A single script file: an up-only migration.
    File {
        /// The entry's name.
        name: String,
        /// The script text.
        content: String,
    },
    /// A directory holding a paired migration's scripts.
    Dir {
        /// The entry's name.
        name: String,
        /// The files inside the directory.
        files: Vec<EmbeddedFile>,
    },
}

impl EmbeddedEntry {
    /// The entry's name.
    pub open spec fn spec_name(&self) -> Seq<char> {
        match self {
            EmbeddedEntry::File { name, .. } => name@,
            EmbeddedEntry::Dir { name, .. } => name@,
        }
    }
}

/// The migration an embedded entry stands for.
pub open spec fn spec_entry_migration(e: EmbeddedEntry) -> Migration {
    match e {
        EmbeddedEntry::File { name, .. } => Migration { name, kind: MigrationKind::File },
        EmbeddedEntry::Dir { name, .. } => Migration { name, kind: MigrationKind::Paired },
    }
}

/// The migrations an embedded tree lists: each digit-prefixed entry, in
/// tree order, classified by its shape.
pub open spec fn spec_embedded_list(entries: Seq<EmbeddedEntry>) -> Seq<Migration> {
    entries.filter(|e: EmbeddedEntry| digit_prefixed(e.spec_name())).map_values(
        |e: EmbeddedEntry| spec_entry_migration(e),
    )
}

/// The content of the first file entry named `name`, if any.
pub open spec fn spec_find_file(entries: Seq<EmbeddedEntry>, name: Seq<char>) -> Option<Seq<char>>
    decreases entries.len(),
{
    if entries.len() == 0 {
        None
    } else {
        match entries.first() {
            EmbeddedEntry::File { name: n, content } => if n@ == name {
                Some(content@)
            } else {
                spec_find_file(entries.drop_first(), name)
            },
            EmbeddedEntry::Dir { .. } => spec_find_file(entries.drop_first(), name),
        }
    }
}

/// The files of the first directory entry named `name`, if any.
pub open spec fn spec_find_dir(entries: Seq<EmbeddedEntry>, name: Seq<char>) -> Option<
    Seq<EmbeddedFile>,
>
    decreases entries.len(),
{
    if entries.len() == 0 {
        None
    } else {
        match entries.first() {
            EmbeddedEntry::Dir { name: n, files } => if n@ == name {
                Some(files@)
            } else {
                spec_find_dir(entries.drop_first(), name)
            },
            EmbeddedEntry::File { .. } => spec_find_dir(entries.drop_first(), name),
        }
    }
}

/// The content of the first file named `name` inside a directory, if any.
pub open spec fn spec_find_in_dir(files: Seq<EmbeddedFile>, name: Seq<char>) -> Option<Seq<char>>
    decreases files.len(),
{
    if files.len() == 0 {
        None
    } else if files.first().name@ == name {
        Some(files.first().content@)
    } else {
        spec_find_in_dir(files.drop_first(), name)
    }
}

/// Finds the content of the file entry named `name`.
fn lookup_file(entries: &Vec<EmbeddedEntry>, name: &String) -> (r: Option<String>)
    ensures
        match r {
            Some(c) => spec_find_file(entries@, name@) == Some(c@),
            None => spec_find_file(entries@, name@) is None,
        },
{
    let ghost all = entries@;
    let mut i: usize = 0;
    proof {
        assert(all.skip(0) =~= all);
    }
    while i < entries.len()
        invariant
            i <= all.len(),
            all == entries@,
            spec_find_file(all, name@) == spec_find_file(all.skip(i as int), name@),
        decreases all.len() - i,
    {
        proof {
            assert(all.skip(i as int).len() > 0);
            assert(all.skip(i as int).first() == all[i as int]);
            assert(all.skip(i as int).drop_first() =~= all.skip(i + 1));
        }
        match &entries[i] {
            EmbeddedEntry::File { name: n, content } => {
                if *n == *name {
                    return Some(content.clone());
                }
            },
            EmbeddedEntry::Dir { .. } => {},
        }
        i = i + 1;
    }
    proof {
        assert(all.skip(all.len() as int).len() == 0);
    }
    None
}

/// Finds the files of the directory entry named `name`.
fn lookup_dir<'a>(entries: &'a Vec<EmbeddedEntry>, name: &String) -> (r: Option<
    &'a Vec<EmbeddedFile>,
>)
    ensures
        match r {
            Some(files) => spec_find_dir(entries@, name@) == Some(files@),
            None => spec_find_dir(entries@, name@) is None,
        },
{
    let ghost all = entries@;
    let mut i: usize = 0;
    proof {
        assert(all.skip(0) =~= all);
    }
    while i < entries.len()
        invariant
            i <= all.len(),
            all == entries@,
            spec_find_dir(all, name@) == spec_find_dir(all.skip(i as int), name@),
        decreases all.len() - i,
    {
        proof {
            assert(all.skip(i as int).len() > 0);
            assert(all.skip(i as int).first() == all[i as int]);
            assert(all.skip(i as int).drop_first() =~= all.skip(i + 1));
        }
        match &entries[i] {
            EmbeddedEntry::Dir { name: n, files } => {
                if *n == *name {
                    return Some(files);
                }
            },
            EmbeddedEntry::File { .. } => {},
        }
        i = i + 1;
    }
    proof {
        assert(all.skip(all.len() as int).len() == 0);
    }
    None
}

/// Finds the content of the file named `name` inside a directory.
fn lookup_in_dir(files: &Vec<EmbeddedFile>, name: &String) -> (r: Option<String>)
    ensures
        match r {
            Some(c) => spec_find_in_dir(files@, name@) == Some(c@),
            None => spec_find_in_dir(files@, name@) is None,
        },
{
    let ghost all = files@;
    let mut i: usize = 0;
    proof {
        assert(all.skip(0) =~= all);
    }
    while i < files.len()
        invariant
            i <= all.len(),
            all == files@,
            spec_find_in_dir(all, name@) == spec_find_in_dir(all.skip(i as int), name@),
        decreases all.len() - i,
    {
        proof {
            assert(all.skip(i as int).len() > 0);
            assert(all.skip(i as int).first() == all[i as int]);
            assert(all.skip(i as int).drop_first() =~= all.skip(i + 1));
        }
        if files[i].name == *name {
            return Some(files[i].content.clone());
        }
        i = i + 1;
    }
    proof {
        assert(all.skip(all.len() as int).len() == 0);
    }
    None
}

/// A migration source over an asset tree held in memory — the shape assets
/// embedded in the binary at build time take once decoded. Enumeration and
/// classification follow the same rules as the disk source: digit-prefixed
/// entries only, files are `File` migrations, directories `Paired` ones.
pub struct EmbeddedSource {
    entries: Vec<EmbeddedEntry>,
}

impl EmbeddedSource {
    /// The tree's top-level entries, in tree order.
    pub closed spec fn entries(&self) -> Seq<EmbeddedEntry> {
        self.entries@
    }

    /// Create a source over the given tree entries. The entries' order is
    /// the listing order; their names should be distinct, as in the
    /// directory they were built from.
    pub fn new(entries: Vec<EmbeddedEntry>) -> (r: Self)
        ensures
            r.entries() == entries@,
    {
        EmbeddedSource { entries }
    }
}

impl MigrationSource for EmbeddedSource {
    /// Lists the digit-prefixed entries of the tree, in tree order.
    fn list(&self) -> (r: Result<Vec<Migration>, MigrationError>)
        ensures
            r matches Ok(ms) && ms@ == spec_embedded_list(self.entries()),
    {
        let keep = Ghost(|e: EmbeddedEntry| digit_prefixed(e.spec_name()));
        let to_mig = Ghost(|e: EmbeddedEntry| spec_entry_migration(e));
        let ghost all = self.entries@;
        let mut out: Vec<Migration> = Vec::new();
        let mut i: usize = 0;
        proof {
            assert(all.take(0) =~= Seq::<EmbeddedEntry>::empty());
            assert(out@ =~= spec_embedded_list(all.take(0)));
        }
        while i < self.entries.len()
            invariant
                i <= all.len(),
                all == self.entries@,
                keep@ == (|e: EmbeddedEntry| digit_prefixed(e.spec_name())),
                to_mig@ == (|e: EmbeddedEntry| spec_entry_migration(e)),
                out@ == spec_embedded_list(all.take(i as int)),
            decreases all.len() - i,
        {
            let ghost prev = out@;
            let entry = &self.entries[i];
            let kept = match entry {
                EmbeddedEntry::File { name, .. } => starts_with_digit(name.as_str()),
                EmbeddedEntry::Dir { name, .. } => starts_with_digit(name.as_str()),
            };
            if kept {
                let m = match entry {
                    EmbeddedEntry::File { name, .. } => Migration {
                        name: name.clone(),
                        kind: MigrationKind::File,
                    },
                    EmbeddedEntry::Dir { name, .. } => Migration {
                        name: name.clone(),
                        kind: MigrationKind::Paired,
                    },
                };
                proof {
                    assert(m == spec_entry_migration(all[i as int]));
                }
                out.push(m);
            }
            proof {
                let taken = all.take(i as int);
                let ei = all[i as int];
                assert(all.take(i + 1) =~= taken.push(ei));
                assert(all.take(i + 1).filter(keep@) == taken.push(ei).filter(keep@));
                if keep@(ei) {
                    assert(taken.filter(keep@).push(ei).map_values(to_mig@) == spec_embedded_list(
                        taken,
                    ).push(to_mig@(ei)));
                    assert(spec_embedded_list(all.take(i + 1)) == spec_embedded_list(taken).push(
                        to_mig@(ei),
                    ));
                } else {
                    assert(spec_embedded_list(all.take(i + 1)) == spec_embedded_list(taken));
                }
            }
            i = i + 1;
        }
        proof {
            assert(all.take(all.len() as int) =~= all);
        }
        Ok(out)
    }

    /// Loads the up script: the file entry itself for a `File` migration,
    /// the directory's `up.surql` for a `Paired` one. A missing entry or
    /// script is a `NotFound` error.
    fn get_up(&self, migration: &Migration) -> (r: Result<String, MigrationError>)
        ensures
            ({
                let entries = self.entries();
                match migration.kind {
                    MigrationKind::File => match spec_find_file(entries, migration.name@) {
                        Some(c) => r matches Ok(s) && s@ == c,
                        None => r matches Err(e) && e matches MigrationError::NotFound(_),
                    },
                    MigrationKind::Paired => match spec_find_dir(entries, migration.name@) {
                        Some(files) => match spec_find_in_dir(files, "up.surql"@) {
                            Some(c) => r matches Ok(s) && s@ == c,
                            None => r matches Err(e) && e matches MigrationError::NotFound(_),
                        },
                        None => r matches Err(e) && e matches MigrationError::NotFound(_),
                    },
                }
            }),
    {
        match migration.kind {
            MigrationKind::File => {
                match lookup_file(&self.entries, &migration.name) {
                    Some(content) => Ok(content),
                    None => Err(
                        MigrationError::NotFound(String::from_str("migration file not found")),
                    ),
                }
            },
            MigrationKind::Paired => {
                let files = match lookup_dir(&self.entries, &migration.name) {
                    Some(files) => files,
                    None => {
                        return Err(
                            MigrationError::NotFound(
                                String::from_str("migration directory not found"),
                            ),
                        );
                    },
                };
                match lookup_in_dir(files, &String::from_str("up.surql")) {
                    Some(content) => Ok(content),
                    None => Err(MigrationError::NotFound(String::from_str("up.surql not found"))),
                }
            },
        }
    }

    /// Loads the down script: `Ok(None)` for a `File` migration (up-only
    /// by contract), the directory's `down.surql` for a `Paired` one. For
    /// a paired migration a missing entry or script is a `NotFound` error.
    fn get_down(&self, migration: &Migration) -> (r: Result<Option<String>, MigrationError>)
        ensures
            ({
                let entries = self.entries();
                match migration.kind {
                    MigrationKind::File => r == Ok::<Option<String>, MigrationError>(None),
                    MigrationKind::Paired => match spec_find_dir(entries, migration.name@) {
                        Some(files) => match spec_find_in_dir(files, "down.surql"@) {
                            Some(c) => r matches Ok(s) && s matches Some(d) && d@ == c,
                            None => r matches Err(e) && e matches MigrationError::NotFound(_),
                        },
                        None => r matches Err(e) && e matches MigrationError::NotFound(_),
                    },
                }
            }),
    {
        match migration.kind {
            MigrationKind::File => Ok(None),
            MigrationKind::Paired => {
                let files = match lookup_dir(&self.entries, &migration.name) {
                    Some(files) => files,
                    None => {
                        return Err(
                            MigrationError::NotFound(
                                String::from_str("migration directory not found"),
                            ),
                        );
                    },
                };
                match lookup_in_dir(files, &String::from_str("down.surql")) {
                    Some(content) => Ok(Some(content)),
                    None => Err(
                        MigrationError::NotFound(String::from_str("down.surql not found")),
                    ),
                }
            },
        }
    }
}

} // verus!
