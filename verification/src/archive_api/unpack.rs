//! Unpacking an archive into a directory, entry by entry.

use crate::entry;
use crate::install::archive;
use crate::install::source;
use crate::text;
use crate::zip_reader;
use vstd::prelude::*;

verus! {

/// The most entries that an archive may have.
pub const MAX_UNZIP_ENTRIES: usize = 200_000;

/// The most bytes that are unpacked in all: 8 GB.
pub const MAX_UNZIP_TOTAL_BYTES: u64 = 8_589_934_592;

/// The largest file that is unpacked: 4 GB.
pub const MAX_UNZIP_SINGLE_FILE_BYTES: u64 = 4_294_967_296;

/// What unpacking an archive came to.
#[derive(Clone, Copy, PartialEq, Eq, Debug, Structural)]
pub struct UnzipSummary {
    /// The files that were unpacked; directories do not count.
    pub extracted_files: u64,
    /// Their bytes.
    pub extracted_bytes: u64,
}

/// What to do with an entry. Paths are relative to the target directory.
#[derive(Debug)]
pub enum UnzipStep {
    /// Create a directory.
    Directory(Vec<String>),
    /// Write a file. The name is that of the entry, as the archive has it.
    File { path: Vec<String>, name: String, data: Vec<u8> },
    /// The file cannot be written because the archive does not give its bytes.
    Unreadable { path: Vec<String>, name: String, why: String },
}

/// The view of [`UnzipStep`].
pub enum UnzipStepView {
    Directory(Seq<Seq<char>>),
    File { path: Seq<Seq<char>>, name: Seq<char>, data: Seq<u8> },
    Unreadable { path: Seq<Seq<char>>, name: Seq<char>, why: Seq<char> },
}

impl View for UnzipStep {
    type V = UnzipStepView;

    open spec fn view(&self) -> UnzipStepView {
        match self {
            UnzipStep::Directory(p) => UnzipStepView::Directory(text::texts(p@)),
            UnzipStep::File { path, name, data } => UnzipStepView::File {
                path: text::texts(path@),
                name: name@,
                data: data@,
            },
            UnzipStep::Unreadable { path, name, why } => UnzipStepView::Unreadable {
                path: text::texts(path@),
                name: name@,
                why: why@,
            },
        }
    }
}

/// Turns the name of an archive entry into a relative path, see [`entry::entry_path`].
pub fn safe_zip_entry_path(name: &str) -> (r: Result<Vec<String>, String>)
    ensures
        entry::path_outcome(r) == entry::entry_path(name@),
{
    entry::split_entry_name(name)
}

/// The bytes that may be read of a file when so many are unpacked: one more than allowed, so
/// that a file that is too large shows.
pub open spec fn read_limit(unpacked: u64) -> int {
    let left = if unpacked <= MAX_UNZIP_TOTAL_BYTES {
        MAX_UNZIP_TOTAL_BYTES - unpacked
    } else {
        0
    };
    if left < MAX_UNZIP_SINGLE_FILE_BYTES {
        left + 1
    } else {
        MAX_UNZIP_SINGLE_FILE_BYTES + 1
    }
}

/// What is wrong with a file of `written` bytes when so many are unpacked before it.
pub open spec fn size_error(name: Seq<char>, unpacked: u64, written: nat) -> Option<Seq<char>> {
    if unpacked + written > MAX_UNZIP_TOTAL_BYTES {
        Some("解压总体积超过上限 8 GB，已中止（疑似 zip 炸弹）"@)
    } else if written > MAX_UNZIP_SINGLE_FILE_BYTES {
        Some("文件 "@ + name + " 大小超过单文件上限 4 GB，已中止（疑似 zip 炸弹）"@)
    } else {
        None
    }
}

/// What becomes of an entry when so many bytes are unpacked.
pub open spec fn unzip_step(bytes: Seq<u8>, index: nat, unpacked: u64) -> Result<
    UnzipStepView,
    Seq<char>,
> {
    match zip_reader::zip_head(bytes, index) {
        Err(e) => Err("读取归档条目失败: "@ + e),
        Ok((name, is_dir, size, mode)) => if archive::is_link(mode) {
            Err("归档含符号链接条目（不安全）："@ + name)
        } else {
            match entry::entry_path(name) {
                Err(e) => Err(e),
                Ok(path) => if is_dir {
                    Ok(UnzipStepView::Directory(path))
                } else if size > MAX_UNZIP_SINGLE_FILE_BYTES {
                    Err(
                        "文件 "@ + name
                            + " 声明大小超过单文件上限 4 GB，已中止（疑似 zip 炸弹）"@,
                    )
                } else {
                    match zip_reader::zip_data(bytes, index, read_limit(unpacked) as nat) {
                        Err(e) => Ok(UnzipStepView::Unreadable { path, name, why: e }),
                        Ok(d) => match size_error(name, unpacked, d.len()) {
                            Some(e) => Err(e),
                            None => Ok(UnzipStepView::File { path, name, data: d }),
                        },
                    }
                },
            }
        },
    }
}

/// Why an archive is not unpacked at all.
pub open spec fn open_error(bytes: Seq<u8>) -> Option<Seq<char>> {
    match zip_reader::zip_fault(bytes) {
        Some(e) => Some("归档不是有效的 zip: "@ + e),
        None => if zip_reader::zip_count(bytes) > MAX_UNZIP_ENTRIES {
            Some(
                "归档条目数 "@ + text::decimal_text(zip_reader::zip_count(bytes))
                    + " 超过上限 200000，已中止（疑似 zip 炸弹）"@,
            )
        } else {
            None
        },
    }
}

/// How many entries of an archive were taken, and what came out of them.
#[derive(Debug)]
struct Progress {
    index: usize,
    count: usize,
    files: u64,
    unpacked: u64,
}

impl Progress {
    #[verifier::type_invariant]
    spec fn inv(self) -> bool {
        &&& self.files <= self.index <= self.count <= MAX_UNZIP_ENTRIES
        &&& self.unpacked <= MAX_UNZIP_TOTAL_BYTES
    }
}

/// An archive that is being unpacked.
pub struct Unzip {
    archive: zip::ZipArchive<std::io::Cursor<Vec<u8>>>,
    progress: Progress,
}

impl Unzip {
    /// The bytes of the archive.
    pub closed spec fn bytes(&self) -> Seq<u8> {
        zip_reader::archive_bytes(self.archive)
    }

    /// The entry that is next.
    pub closed spec fn index(&self) -> nat {
        self.progress.index as nat
    }

    /// The entry at which unpacking ends.
    pub closed spec fn count(&self) -> nat {
        self.progress.count as nat
    }

    /// The files unpacked so far.
    pub closed spec fn files(&self) -> u64 {
        self.progress.files
    }

    /// The bytes unpacked so far.
    pub closed spec fn unpacked(&self) -> u64 {
        self.progress.unpacked
    }

    /// Opens an archive, see [`open_error`].
    pub fn open(bytes: Vec<u8>) -> (r: Result<Unzip, String>)
        ensures
            match r {
                Ok(u) => {
                    &&& open_error(bytes@) is None
                    &&& u.bytes() == bytes@
                    &&& u.index() == 0
                    &&& u.count() == zip_reader::zip_count(bytes@)
                    &&& u.files() == 0
                    &&& u.unpacked() == 0
                },
                Err(e) => open_error(bytes@) == Some(e@),
            },
    {
        let archive = match zip_reader::open(bytes) {
            Ok(a) => a,
            Err(e) => {
                return Err(text::owned("归档不是有效的 zip: ").concat(e.as_str()));
            },
        };
        let count: usize = zip_reader::count(&archive);
        if count > MAX_UNZIP_ENTRIES {
            let n = text::decimal(count as u64);
            return Err(
                text::owned("归档条目数 ").concat(n.as_str()).concat(
                    " 超过上限 200000，已中止（疑似 zip 炸弹）",
                ),
            );
        }
        Ok(Unzip { archive, progress: Progress { index: 0, count, files: 0, unpacked: 0 } })
    }

    /// What to do with the next entry, see [`unzip_step`]; `None` when there is none. An error
    /// ends the unpacking.
    pub fn next(&mut self) -> (r: Option<Result<UnzipStep, String>>)
        ensures
            final(self).bytes() == old(self).bytes(),
            final(self).count() == old(self).count(),
            final(self).unpacked() <= MAX_UNZIP_TOTAL_BYTES,
            match r {
                None => {
                    &&& old(self).index() >= old(self).count()
                    &&& final(self).index() == old(self).index()
                    &&& final(self).files() == old(self).files()
                    &&& final(self).unpacked() == old(self).unpacked()
                },
                Some(step) => {
                    &&& old(self).index() < old(self).count()
                    &&& text::outcome(step) == unzip_step(
                        old(self).bytes(),
                        old(self).index(),
                        old(self).unpacked(),
                    )
                    &&& match text::outcome(step) {
                        Err(_) => {
                            &&& final(self).index() == old(self).count()
                            &&& final(self).files() == old(self).files()
                            &&& final(self).unpacked() == old(self).unpacked()
                        },
                        Ok(UnzipStepView::File { data, .. }) => {
                            &&& final(self).index() == old(self).index() + 1
                            &&& final(self).files() == old(self).files() + 1
                            &&& final(self).unpacked() == old(self).unpacked() + data.len()
                        },
                        Ok(_) => {
                            &&& final(self).index() == old(self).index() + 1
                            &&& final(self).files() == old(self).files()
                            &&& final(self).unpacked() == old(self).unpacked()
                        },
                    }
                },
            },
    {
        proof {
            use_type_invariant(&self.progress);
        }
        let at: usize = self.progress.index;
        let count: usize = self.progress.count;
        let files: u64 = self.progress.files;
        let unpacked: u64 = self.progress.unpacked;
        if at >= count {
            return None;
        }
        match step_of(&mut self.archive, at, unpacked) {
            Err(e) => {
                self.progress = Progress { index: count, count, files, unpacked };
                Some(Err(e))
            },
            Ok(step) => {
                self.progress = match &step {
                    UnzipStep::File { data, .. } => Progress {
                        index: at + 1,
                        count,
                        files: files + 1,
                        unpacked: unpacked + data.len() as u64,
                    },
                    _ => Progress { index: at + 1, count, files, unpacked },
                };
                Some(Ok(step))
            },
        }
    }

    /// What unpacking came to so far.
    pub fn summary(&self) -> (r: UnzipSummary)
        ensures
            r.extracted_files == self.files(),
            r.extracted_bytes == self.unpacked(),
            r.extracted_files <= MAX_UNZIP_ENTRIES,
            r.extracted_bytes <= MAX_UNZIP_TOTAL_BYTES,
    {
        proof {
            use_type_invariant(&self.progress);
        }
        UnzipSummary {
            extracted_files: self.progress.files,
            extracted_bytes: self.progress.unpacked,
        }
    }
}

fn check_size(name: &str, unpacked: u64, written: u64) -> (r: Result<(), String>)
    requires
        unpacked <= MAX_UNZIP_TOTAL_BYTES,
        written <= MAX_UNZIP_SINGLE_FILE_BYTES + 1,
    ensures
        text::message_of(r) == size_error(name@, unpacked, written as nat),
{
    if unpacked + written > MAX_UNZIP_TOTAL_BYTES {
        return Err(text::owned("解压总体积超过上限 8 GB，已中止（疑似 zip 炸弹）"));
    }
    if written > MAX_UNZIP_SINGLE_FILE_BYTES {
        return Err(
            text::owned("文件 ").concat(name).concat(
                " 大小超过单文件上限 4 GB，已中止（疑似 zip 炸弹）",
            ),
        );
    }
    Ok(())
}

fn step_of(
    archive: &mut zip::ZipArchive<std::io::Cursor<Vec<u8>>>,
    index: usize,
    unpacked: u64,
) -> (r: Result<UnzipStep, String>)
    requires
        unpacked <= MAX_UNZIP_TOTAL_BYTES,
    ensures
        zip_reader::archive_bytes(*final(archive)) == zip_reader::archive_bytes(*old(archive)),
        text::outcome(r) == unzip_step(
            zip_reader::archive_bytes(*old(archive)),
            index as nat,
            unpacked,
        ),
{
    let head = match zip_reader::head(archive, index) {
        Ok(h) => h,
        Err(e) => {
            return Err(text::owned("读取归档条目失败: ").concat(e.as_str()));
        },
    };
    if archive::marks_link(head.unix_mode) {
        return Err(text::owned("归档含符号链接条目（不安全）：").concat(head.name.as_str()));
    }
    let path = match safe_zip_entry_path(head.name.as_str()) {
        Ok(p) => p,
        Err(e) => {
            return Err(e);
        },
    };
    if head.is_dir {
        return Ok(UnzipStep::Directory(path));
    }
    if head.size > MAX_UNZIP_SINGLE_FILE_BYTES {
        return Err(
            text::owned("文件 ").concat(head.name.as_str()).concat(
                " 声明大小超过单文件上限 4 GB，已中止（疑似 zip 炸弹）",
            ),
        );
    }
    let left: u64 = MAX_UNZIP_TOTAL_BYTES - unpacked;
    let limit: u64 = if left < MAX_UNZIP_SINGLE_FILE_BYTES {
        left + 1
    } else {
        MAX_UNZIP_SINGLE_FILE_BYTES + 1
    };
    match zip_reader::data(archive, index, limit) {
        Err(e) => Ok(UnzipStep::Unreadable { path, name: head.name, why: e }),
        Ok(d) => {
            match check_size(head.name.as_str(), unpacked, d.len() as u64) {
                Err(e) => Err(e),
                Ok(_) => Ok(UnzipStep::File { path, name: head.name, data: d }),
            }
        },
    }
}

/// The path that a step works on.
pub open spec fn step_path(step: UnzipStepView) -> Seq<Seq<char>> {
    match step {
        UnzipStepView::Directory(p) => p,
        UnzipStepView::File { path, .. } => path,
        UnzipStepView::Unreadable { path, .. } => path,
    }
}

/// Whatever an archive holds, every step works on a path below the target directory, and no
/// file takes the total over its limit or is over the limit of a single one.
pub proof fn steps_stay_inside(bytes: Seq<u8>, index: nat, unpacked: u64)
    requires
        unzip_step(bytes, index, unpacked) is Ok,
    ensures
        ({
            let step = unzip_step(bytes, index, unpacked)->Ok_0;
            &&& step_path(step).len() > 0
            &&& forall|k: int|
                0 <= k < step_path(step).len() ==> {
                    let seg = #[trigger] step_path(step)[k];
                    &&& seg.len() > 0
                    &&& !source::all_dots(seg)
                    &&& !seg.contains('/') && !seg.contains('\\') && !seg.contains('\0')
                }
            &&& step matches UnzipStepView::File { data, .. } ==> data.len()
                <= MAX_UNZIP_SINGLE_FILE_BYTES && unpacked + data.len() <= MAX_UNZIP_TOTAL_BYTES
        }),
{
    match zip_reader::zip_head(bytes, index) {
        Ok((name, is_dir, size, mode)) => {
            entry::entry_paths_stay_inside(name);
        },
        Err(_) => {},
    }
}

/// A file is unpacked where it has no more than 4 GB and all files together have no more than
/// 8 GB, and never beyond that; of a file that may be unpacked everything is read.
pub proof fn files_are_unpacked_up_to_the_limits(name: Seq<char>, unpacked: u64, size: nat)
    requires
        unpacked <= MAX_UNZIP_TOTAL_BYTES,
    ensures
        ({
            let giga = 1024int * 1024 * 1024;
            let allowed = size <= 4 * giga && unpacked + size <= 8 * giga;
            &&& size_error(name, unpacked, size) is None <==> allowed
            &&& allowed <==> size < read_limit(unpacked)
        }),
{
}

/// An entry is unpacked to the path of its name, with the bytes that the archive holds for it;
/// links are refused, and so are names that lead outside.
pub proof fn entries_are_unpacked_to_their_names(
    bytes: Seq<u8>,
    index: nat,
    unpacked: u64,
    name: Seq<char>,
    is_dir: bool,
    size: u64,
    mode: Option<u32>,
    path: Seq<Seq<char>>,
    data: Seq<u8>,
)
    requires
        unpacked <= MAX_UNZIP_TOTAL_BYTES,
        zip_reader::zip_head(bytes, index) == Ok::<
            (Seq<char>, bool, u64, Option<u32>),
            Seq<char>,
        >((name, is_dir, size, mode)),
        entry::entry_path(name) == Ok::<Seq<Seq<char>>, Seq<char>>(path),
        zip_reader::zip_data(bytes, index, read_limit(unpacked) as nat) == Ok::<
            Seq<u8>,
            Seq<char>,
        >(data),
    ensures
        archive::is_link(mode) ==> unzip_step(bytes, index, unpacked) is Err,
        !archive::is_link(mode) && is_dir ==> unzip_step(bytes, index, unpacked) == Ok::<
            UnzipStepView,
            Seq<char>,
        >(UnzipStepView::Directory(path)),
        !archive::is_link(mode) && !is_dir && size <= 4 * 1024 * 1024 * 1024 && data.len() <= 4
            * 1024 * 1024 * 1024 && unpacked + data.len() <= 8 * 1024 * 1024 * 1024 ==> unzip_step(
            bytes,
            index,
            unpacked,
        ) == Ok::<UnzipStepView, Seq<char>>(UnzipStepView::File { path, name, data }),
        !archive::is_link(mode) && !is_dir && size > 4 * 1024 * 1024 * 1024 ==> unzip_step(
            bytes,
            index,
            unpacked,
        ) is Err,
{
}

/// An archive is unpacked where it is one and has no more than 200000 entries.
pub proof fn archives_are_unpacked_up_to_the_limit(bytes: Seq<u8>)
    requires
        zip_reader::zip_fault(bytes) is None,
    ensures
        open_error(bytes) is None <==> zip_reader::zip_count(bytes) <= 200_000,
{
}

} // verus!
