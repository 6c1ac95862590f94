//! Packing files and directories into an archive.

use crate::path;
use crate::text;
use vstd::prelude::*;

verus! {

/// The most files that an archive may be made of.
pub const MAX_ZIP_CREATE_ENTRIES: u64 = 200_000;

/// What packing an archive came to.
#[derive(Clone, Copy, PartialEq, Eq, Debug, Structural)]
pub struct ZipCreateSummary {
    /// The files in the archive; directories do not count.
    pub entry_count: u64,
    /// The size of the archive in bytes.
    pub archive_bytes: u64,
}

// ---------------------------------------------------------------------------
// Entry names
// ---------------------------------------------------------------------------

/// A relative path as archives write it: slashes only, no empty or single-dot pieces.
pub open spec fn root_name(sub: Seq<char>) -> Seq<char> {
    text::joined(path::parts(sub), "/"@)
}

/// Writes a relative path the way archives do, see [`root_name`].
pub fn normalize_zip_root_name(sub: &str) -> (r: String)
    ensures
        r@ == root_name(sub@),
{
    let kept = path::named_parts(sub);
    let joined = text::join(&kept, "/");
    text::string_of(joined.as_slice())
}

/// A name that was written the way archives do stays as it is when written so again.
pub proof fn root_name_is_stable(sub: Seq<char>)
    ensures
        root_name(root_name(sub)) == root_name(sub),
{
    let unified = text::replaced(sub, '\\', '/');
    let parts = text::pieces(unified, '/');
    let kept = path::named_pieces(parts);
    let name = root_name(sub);
    text::lemma_pieces_free(unified, '/');
    path::lemma_named(parts);
    reveal_strlit("/");
    assert forall|k: int, j: int|
        0 <= k < kept.len() && 0 <= j < kept[k].len() implies #[trigger] kept[k][j] != '/'
        && kept[k][j] != '\\' by {
        let m = choose|m: int| 0 <= m < parts.len() && parts[m] == kept[k];
        assert(parts[m][j] != '/');
        assert(unified.contains(parts[m][j]));
    }
    assert("/"@ =~= seq!['/']);
    assert forall|j: int| 0 <= j < name.len() implies #[trigger] name[j] != '\\' by {
        text::lemma_joined_chars(kept, "/"@, j);
    }
    assert(text::replaced(name, '\\', '/') =~= name);
    if kept.len() == 0 {
        assert(name =~= Seq::<char>::empty());
        text::lemma_pieces_one(name, '/');
        let one = text::pieces(name, '/');
        assert(one.drop_last() =~= Seq::<Seq<char>>::empty());
        assert(path::named_pieces(one.drop_last()) =~= Seq::<Seq<char>>::empty());
        assert(path::named_pieces(one) =~= kept);
    } else {
        text::lemma_pieces_joined(kept, '/');
        path::lemma_named_id(kept);
    }
}

// ---------------------------------------------------------------------------
// Walking over what is packed
// ---------------------------------------------------------------------------

/// What was found at a path.
#[derive(Clone, Copy, PartialEq, Eq, Debug, Structural)]
pub enum FoundKind {
    Directory,
    File,
    /// Links and whatever else is neither.
    Other,
}

/// What to do with something that was found.
#[derive(Debug)]
pub enum PackStep {
    /// Write a directory entry of this name.
    Directory(String),
    /// Write a file entry of this name.
    File(String),
    /// Leave it out.
    Skip,
}

/// The view of [`PackStep`].
pub enum PackStepView {
    Directory(Seq<char>),
    File(Seq<char>),
    Skip,
}

impl View for PackStep {
    type V = PackStepView;

    open spec fn view(&self) -> PackStepView {
        match self {
            PackStep::Directory(n) => PackStepView::Directory(n@),
            PackStep::File(n) => PackStepView::File(n@),
            PackStep::Skip => PackStepView::Skip,
        }
    }
}

/// What becomes of something found under an entry name, when so many files are packed.
pub open spec fn pack_step(name: Seq<char>, kind: FoundKind, packed: u64) -> Result<
    PackStepView,
    Seq<char>,
> {
    match kind {
        FoundKind::Directory => Ok(PackStepView::Directory(name)),
        FoundKind::File => if packed >= MAX_ZIP_CREATE_ENTRIES {
            Err("归档条目数超过上限 200000"@)
        } else {
            Ok(PackStepView::File(name))
        },
        FoundKind::Other => Ok(PackStepView::Skip),
    }
}

/// The files packed after a step.
pub open spec fn packed_after(step: Result<PackStepView, Seq<char>>, packed: u64) -> int {
    match step {
        Ok(PackStepView::File(_)) => packed + 1,
        _ => packed as int,
    }
}

/// How far packing an archive has come.
#[derive(Debug)]
pub struct Packing {
    packed: u64,
}

impl Packing {
    /// The files packed so far.
    pub closed spec fn packed(&self) -> u64 {
        self.packed
    }

    #[verifier::type_invariant]
    spec fn inv(self) -> bool {
        self.packed <= MAX_ZIP_CREATE_ENTRIES
    }

    pub fn new() -> (r: Self)
        ensures
            r.packed() == 0,
    {
        Packing { packed: 0 }
    }

    fn take(&mut self, name: String, kind: FoundKind) -> (r: Result<PackStep, String>)
        ensures
            text::outcome(r) == pack_step(name@, kind, old(self).packed()),
            final(self).packed() == packed_after(text::outcome(r), old(self).packed()),
            final(self).packed() <= MAX_ZIP_CREATE_ENTRIES,
    {
        proof {
            use_type_invariant(&*self);
        }
        match kind {
            FoundKind::Directory => Ok(PackStep::Directory(name)),
            FoundKind::File => {
                if self.packed >= MAX_ZIP_CREATE_ENTRIES {
                    return Err(text::owned("归档条目数超过上限 200000"));
                }
                self.packed = self.packed + 1;
                Ok(PackStep::File(name))
            },
            FoundKind::Other => Ok(PackStep::Skip),
        }
    }

    /// Takes one of the chosen paths, under the name it has in the archive. Whatever is no
    /// directory is packed as a file.
    pub fn root(&mut self, name: &str, is_dir: bool) -> (r: Result<PackStep, String>)
        ensures
            text::outcome(r) == (if name@.len() == 0 {
                Err("归档条目名不能为空"@)
            } else {
                pack_step(
                    name@,
                    if is_dir {
                        FoundKind::Directory
                    } else {
                        FoundKind::File
                    },
                    old(self).packed(),
                )
            }),
            final(self).packed() == packed_after(text::outcome(r), old(self).packed()),
            final(self).packed() <= MAX_ZIP_CREATE_ENTRIES,
    {
        proof {
            use_type_invariant(&*self);
        }
        if name.is_empty() {
            return Err(text::owned("归档条目名不能为空"));
        }
        let kind = if is_dir {
            FoundKind::Directory
        } else {
            FoundKind::File
        };
        self.take(text::owned(name), kind)
    }

    /// Takes what was found below a chosen directory, at a path relative to it.
    pub fn walked(&mut self, root: &str, rel: &str, kind: FoundKind) -> (r: Result<
        PackStep,
        String,
    >)
        ensures
            text::outcome(r) == pack_step(
                root@ + "/"@ + text::replaced(rel@, '\\', '/'),
                kind,
                old(self).packed(),
            ),
            final(self).packed() == packed_after(text::outcome(r), old(self).packed()),
            final(self).packed() <= MAX_ZIP_CREATE_ENTRIES,
    {
        let v = text::chars_of(rel);
        let unified = text::replace_char(v.as_slice(), '\\', '/');
        let below = text::string_of(unified.as_slice());
        let name = text::owned(root).concat("/").concat(below.as_str());
        self.take(name, kind)
    }

    /// What packing came to, for an archive of a size.
    pub fn summary(&self, archive_bytes: u64) -> (r: ZipCreateSummary)
        ensures
            r.entry_count == self.packed(),
            r.entry_count <= MAX_ZIP_CREATE_ENTRIES,
            r.archive_bytes == archive_bytes,
    {
        proof {
            use_type_invariant(self);
        }
        ZipCreateSummary { entry_count: self.packed, archive_bytes }
    }
}

/// Checks that something was chosen to be packed.
pub fn check_chosen(chosen: &Vec<String>) -> (r: Result<(), String>)
    ensures
        text::message_of(r) == (if chosen@.len() == 0 {
            Some("entries 不能为空"@)
        } else {
            None
        }),
{
    if chosen.len() == 0 {
        return Err(text::owned("entries 不能为空"));
    }
    Ok(())
}

/// Files are packed under their names until there are 200000 of them, directories always, and
/// links and the like never.
pub proof fn files_are_packed_up_to_the_limit(name: Seq<char>, packed: u64)
    ensures
        packed < 200_000 ==> pack_step(name, FoundKind::File, packed) == Ok::<
            PackStepView,
            Seq<char>,
        >(PackStepView::File(name)),
        packed >= 200_000 ==> pack_step(name, FoundKind::File, packed) is Err,
        pack_step(name, FoundKind::Directory, packed) == Ok::<PackStepView, Seq<char>>(
            PackStepView::Directory(name),
        ),
        pack_step(name, FoundKind::Other, packed) == Ok::<PackStepView, Seq<char>>(
            PackStepView::Skip,
        ),
        packed_after(pack_step(name, FoundKind::File, packed), packed) == if packed < 200_000 {
            packed + 1
        } else {
            packed as int
        },
        packed_after(pack_step(name, FoundKind::Directory, packed), packed) == packed,
        packed_after(pack_step(name, FoundKind::Other, packed), packed) == packed,
{
}

/// A path whose pieces are fine names is found again under the same pieces when the archive is
/// unpacked.
pub proof fn packed_paths_unpack_to_themselves(sub: Seq<char>)
    requires
        path::parts(sub).len() > 0,
        forall|k: int|
            0 <= k < path::parts(sub).len() ==> {
                let seg = #[trigger] path::parts(sub)[k];
                &&& seg.len() > 0
                &&& !crate::install::source::all_dots(seg)
                &&& !(seg.len() >= 2 && seg[1] == ':' && text::is_letter(seg[0]))
                &&& seg.last() != ' ' && seg.last() != '.'
                &&& !seg.contains('/') && !seg.contains('\\') && !seg.contains('\0')
            },
    ensures
        crate::entry::entry_path(root_name(sub)) == Ok::<Seq<Seq<char>>, Seq<char>>(
            path::parts(sub),
        ),
{
    crate::entry::fine_names_are_kept(path::parts(sub));
}

} // verus!
