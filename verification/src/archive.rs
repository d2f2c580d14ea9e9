//! Reading a mod archive held in memory: the zip crate parses it, and the library decides
//! which entries become files of the mod and what each is called in the manifest.
use vstd::prelude::*;

use crate::error::AppError;
use crate::import::{forward_slashes, manifest_entry_path};
use crate::text::{decimal, has_prefix, push_all, u64_text};

verus! {

#[verifier::external_type_specification]
#[verifier::external_body]
#[verifier::reject_recursive_types(R)]
pub struct ExZipArchive<R>(zip::ZipArchive<R>);

#[verifier::external_type_specification]
#[verifier::external_body]
#[verifier::reject_recursive_types(T)]
pub struct ExCursor<T>(std::io::Cursor<T>);

#[verifier::external_type_specification]
#[verifier::external_body]
pub struct ExZipError(zip::result::ZipError);

/// Name for what `ZipArchive::new` finds in an in-memory archive: `None` when it cannot be
/// opened; otherwise, for each entry of its central directory in order, `None` when
/// `by_index` fails on it, or else whether it is a directory, its `enclosed_name` as text,
/// and its decompressed contents (`None` when reading them fails).
pub uninterp spec fn zip_entries(bytes: Seq<u8>) -> Option<Seq<Option<(bool, Option<Seq<char>>, Option<Seq<u8>>)>>>;

/// Name for the entries of an opened archive, in the form of `zip_entries`.
pub uninterp spec fn archive_entries(archive: zip::ZipArchive<std::io::Cursor<Vec<u8>>>) -> Seq<Option<(bool, Option<Seq<char>>, Option<Seq<u8>>)>>;

/// Calls `ZipArchive::new` on a cursor over a copy of the bytes. The contract claims that
/// opening succeeds exactly when `zip_entries` has a listing for the bytes, and that the
/// opened archive holds that listing; how the zip format is parsed is left unstated.
#[verifier::external_body]
fn open_archive(bytes: &[u8]) -> (r: Result<zip::ZipArchive<std::io::Cursor<Vec<u8>>>, zip::result::ZipError>)
    ensures
        r matches Ok(a) ==> zip_entries(bytes@) == Some(archive_entries(a)),
        r is Err ==> zip_entries(bytes@) is None,
{
    zip::ZipArchive::new(std::io::Cursor::new(bytes.to_vec()))
}

/// Calls `ZipArchive::len`: the number of entries of the central directory.
#[verifier::external_body]
fn archive_len(archive: &zip::ZipArchive<std::io::Cursor<Vec<u8>>>) -> (r: usize)
    ensures
        r == archive_entries(*archive).len(),
{
    archive.len()
}

/// Calls `ZipArchive::by_index` and, on the entry it gives, `ZipFile::is_dir`,
/// `ZipFile::enclosed_name` (as text) and `Read::read_to_end`. The contract claims that the
/// results are the entry's part of `archive_entries`, and that reading leaves the entries
/// of the archive as they were.
#[verifier::external_body]
fn read_entry(archive: &mut zip::ZipArchive<std::io::Cursor<Vec<u8>>>, i: usize) -> (r: Result<(bool, Option<String>, Result<Vec<u8>, std::io::Error>), zip::result::ZipError>)
    requires
        i < archive_entries(*old(archive)).len(),
    ensures
        archive_entries(*final(archive)) == archive_entries(*old(archive)),
        r is Err ==> archive_entries(*old(archive))[i as int] is None,
        r matches Ok(parts) ==> archive_entries(*old(archive))[i as int] == Some((
            parts.0,
            match parts.1 { Some(n) => Some(n@), None => None::<Seq<char>> },
            match parts.2 { Ok(c) => Some(c@), Err(_) => None::<Seq<u8>> },
        )),
{
    let mut file = match archive.by_index(i) {
        Ok(f) => f,
        Err(e) => return Err(e),
    };
    let name = match file.enclosed_name() {
        Some(p) => Some(p.to_string_lossy().into_owned()),
        None => None,
    };
    let mut data: Vec<u8> = Vec::new();
    let contents = match std::io::Read::read_to_end(&mut file, &mut data) {
        Ok(_) => Ok(data),
        Err(e) => Err(e),
    };
    Ok((file.is_dir(), name, contents))
}

/// Calls `Display` of `zip::result::ZipError`. Nothing is stated of the text: for an I/O
/// failure it is the operating system's message, which is not a function of the error alone.
#[verifier::external_body]
fn zip_error_text(e: &zip::result::ZipError) -> String {
    e.to_string()
}

/// A file of an archive: its manifest path (forward slashes), its path as the archive
/// names it, relative to the extraction folder, and its contents.
#[derive(Debug, Clone)]
pub struct ArchiveFile {
    pub manifest_path: String,
    pub relative_path: String,
    pub contents: Vec<u8>,
}

impl ArchiveFile {
    pub open spec fn view(self) -> (Seq<char>, Seq<char>, Seq<u8>) {
        (self.manifest_path@, self.relative_path@, self.contents@)
    }
}

/// Whether reading an entry fails the extraction: its header cannot be read, or it is a
/// file safely enclosed in the extraction folder whose contents cannot be read. Directories
/// and entries whose names would leave the folder are skipped unread.
pub open spec fn entry_fails(e: Option<(bool, Option<Seq<char>>, Option<Seq<u8>>)>) -> bool {
    match e {
        None => true,
        Some((is_dir, name, contents)) => !is_dir && name is Some && contents is None,
    }
}

/// The files that an archive's entries give, in order: each entry that is not a directory
/// and has an enclosed name, with that name and its forward-slash form.
pub open spec fn kept_files(es: Seq<Option<(bool, Option<Seq<char>>, Option<Seq<u8>>)>>) -> Seq<(Seq<char>, Seq<char>, Seq<u8>)>
    decreases es.len(),
{
    if es.len() == 0 {
        Seq::empty()
    } else {
        let rest = kept_files(es.drop_last());
        match es.last() {
            Some((false, Some(n), Some(c))) => rest.push((forward_slashes(n), n, c)),
            _ => rest,
        }
    }
}

/// Entry `k` is the first whose reading fails.
pub open spec fn first_failure_at(es: Seq<Option<(bool, Option<Seq<char>>, Option<Seq<u8>>)>>, k: int) -> bool {
    &&& 0 <= k < es.len()
    &&& entry_fails(es[k])
    &&& forall|j: int| 0 <= j < k ==> !entry_fails(#[trigger] es[j])
}

/// How the message of a failure to read the header of entry `k` begins; the zip crate's
/// text of the error follows.
pub open spec fn entry_error_prefix(k: nat) -> Seq<char> {
    "Failed to read zip entry "@ + decimal(k) + ": "@
}

/// Reads an in-memory archive into the files to extract, in archive order. Directories and
/// entries whose names would leave the extraction folder are skipped. Fails with
/// `Failed to open zip: ...` when the archive cannot be opened, with
/// `Failed to read zip entry <k>: ...` when the header of entry `k` cannot be read, and with
/// the I/O error when the contents of a kept file cannot be read; the first failing entry
/// decides.
pub fn zip_manifest(bytes: &[u8]) -> (r: Result<Vec<ArchiveFile>, AppError>)
    ensures
        zip_entries(bytes@) is None ==> (r matches Err(e) && e is IoError
            && has_prefix(e.message(), "Failed to open zip: "@)),
        zip_entries(bytes@) matches Some(es) ==> {
            &&& (r is Ok <==> forall|j: int| 0 <= j < es.len() ==> !entry_fails(#[trigger] es[j]))
            &&& (r matches Ok(v) ==> v@.map_values(|f: ArchiveFile| f.view()) == kept_files(es))
            &&& forall|k: int| #[trigger] first_failure_at(es, k) && es[k] is None ==>
                (r matches Err(e) && e is IoError && has_prefix(e.message(), entry_error_prefix(k as nat)))
            &&& forall|k: int| #[trigger] first_failure_at(es, k) && es[k] is Some ==>
                (r matches Err(e) && (e is IoError || e is PermissionDenied))
        },
{
    let mut archive = match open_archive(bytes) {
        Ok(a) => a,
        Err(e) => {
            let mut m = "Failed to open zip: ".to_string();
            push_all(&mut m, zip_error_text(&e).as_str());
            proof {
                reveal_strlit("Failed to open zip: ");
                assert(m@.take(20) =~= "Failed to open zip: "@);
            }
            return Err(AppError::IoError(m));
        },
    };
    let ghost es = archive_entries(archive);
    let n = archive_len(&archive);
    let mut out: Vec<ArchiveFile> = Vec::new();
    for i in 0..n
        invariant
            n == es.len(),
            archive_entries(archive) == es,
            zip_entries(bytes@) == Some(es),
            out@.map_values(|f: ArchiveFile| f.view()) == kept_files(es.take(i as int)),
            forall|j: int| 0 <= j < i ==> !entry_fails(#[trigger] es[j]),
    {
        assert(es.take(i + 1).drop_last() =~= es.take(i as int));
        assert(es.take(i + 1).last() == es[i as int]);
        match read_entry(&mut archive, i) {
            Err(e) => {
                let mut m = "Failed to read zip entry ".to_string();
                push_all(&mut m, u64_text(i as u64).as_str());
                push_all(&mut m, ": ");
                push_all(&mut m, zip_error_text(&e).as_str());
                proof {
                    assert(first_failure_at(es, i as int));
                    lemma_first_failure_unique(es, i as int);
                    reveal_strlit("Failed to read zip entry ");
                    reveal_strlit(": ");
                    let p = entry_error_prefix(i as nat);
                    assert(m@.take(p.len() as int) =~= p);
                }
                return Err(AppError::IoError(m));
            },
            Ok((is_dir, name, contents)) => {
                let name_copy = match &name {
                    Some(s) => Some(s.clone()),
                    None => None,
                };
                let listed = manifest_entry_path(is_dir, name_copy);
                match (listed, name) {
                    (Some(manifest_path), Some(relative)) => {
                        match contents {
                            Ok(data) => {
                                let ghost before = out@;
                                let ghost f = (manifest_path@, relative@, data@);
                                out.push(ArchiveFile { manifest_path, relative_path: relative, contents: data });
                                assert(out@.map_values(|f: ArchiveFile| f.view()) =~= before.map_values(
                                    |f: ArchiveFile| f.view(),
                                ).push(f));
                            },
                            Err(e) => {
                                proof {
                                    assert(first_failure_at(es, i as int));
                                    lemma_first_failure_unique(es, i as int);
                                }
                                return Err(AppError::from(e));
                            },
                        }
                    },
                    _ => {},
                }
            },
        }
    }
    assert(es.take(n as int) =~= es);
    Ok(out)
}

proof fn lemma_first_failure_unique(es: Seq<Option<(bool, Option<Seq<char>>, Option<Seq<u8>>)>>, k: int)
    requires
        first_failure_at(es, k),
    ensures
        forall|m: int| #[trigger] first_failure_at(es, m) ==> m == k,
        !(forall|j: int| 0 <= j < es.len() ==> !entry_fails(#[trigger] es[j])),
{
    assert forall|m: int| #[trigger] first_failure_at(es, m) implies m == k by {
        if m < k {
            assert(!entry_fails(es[m]));
        } else if m > k {
            assert(!entry_fails(es[k]));
        }
    }
}

} // verus!
