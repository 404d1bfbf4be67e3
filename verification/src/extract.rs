//! Which archive formats can be unpacked, and which unpacker takes an
//! archive. Unpacking itself (ZIP, 7z, tar) is done by the caller.

use vstd::prelude::*;

use crate::error::{LastError, LastErrorV};
use crate::path;
use crate::text;

verus! {

/// An unpacker that takes archives by their (lower-case) file name.
pub trait Extractor {
    /// The file names this unpacker takes.
    spec fn accepts(&self, file_name: Seq<char>) -> bool;

    /// Whether this unpacker takes an archive with this (lower-case) file
    /// name.
    fn supports(&self, file_name: &str) -> (r: bool)
        ensures
            r == self.accepts(file_name@),
    ;
}

/// Unpacks `.zip` archives.
pub struct ZipExtractor;

/// Unpacks `.7z` archives.
pub struct SevenZipExtractor;

/// Unpacks `.tar`, `.tar.gz` and `.tgz` archives.
pub struct TarExtractor;

impl Extractor for ZipExtractor {
    open spec fn accepts(&self, file_name: Seq<char>) -> bool {
        text::ends_with(file_name, ".zip"@)
    }

    fn supports(&self, file_name: &str) -> (r: bool) {
        text::ends_with_exec(file_name, ".zip")
    }
}

impl Extractor for SevenZipExtractor {
    open spec fn accepts(&self, file_name: Seq<char>) -> bool {
        text::ends_with(file_name, ".7z"@)
    }

    fn supports(&self, file_name: &str) -> (r: bool) {
        text::ends_with_exec(file_name, ".7z")
    }
}

impl Extractor for TarExtractor {
    open spec fn accepts(&self, file_name: Seq<char>) -> bool {
        text::ends_with(file_name, ".tar"@) || text::ends_with(file_name, ".tar.gz"@) || text::ends_with(
            file_name,
            ".tgz"@,
        )
    }

    fn supports(&self, file_name: &str) -> (r: bool) {
        text::ends_with_exec(file_name, ".tar") || text::ends_with_exec(file_name, ".tar.gz")
            || text::ends_with_exec(file_name, ".tgz")
    }
}

impl TarExtractor {
    /// Whether a tar archive is gzip-compressed, by its file name as it is
    /// (`.tar.gz` or `.tgz`).
    pub fn gzipped(&self, file_name: &str) -> (r: bool)
        ensures
            r == (text::ends_with(file_name@, ".tar.gz"@) || text::ends_with(file_name@, ".tgz"@)),
    {
        text::ends_with_exec(file_name, ".tar.gz") || text::ends_with_exec(file_name, ".tgz")
    }
}

/// The archive formats that can be unpacked.
#[derive(Debug, Clone, Copy, PartialEq, Eq, Structural)]
pub enum ArchiveFormat {
    Zip,
    SevenZip,
    Tar,
}

/// The format that takes a (lower-case) file name: the first of ZIP, 7z
/// and tar that does.
pub open spec fn format_of(name: Seq<char>) -> Option<ArchiveFormat> {
    if (ZipExtractor).accepts(name) {
        Some(ArchiveFormat::Zip)
    } else if (SevenZipExtractor).accepts(name) {
        Some(ArchiveFormat::SevenZip)
    } else if (TarExtractor).accepts(name) {
        Some(ArchiveFormat::Tar)
    } else {
        None
    }
}

/// The unpackers, tried in order: ZIP, 7z, tar.
pub struct ExtractorRegistry {
    pub zip: ZipExtractor,
    pub sevenzip: SevenZipExtractor,
    pub tar: TarExtractor,
}

impl ExtractorRegistry {
    pub fn new() -> (r: ExtractorRegistry) {
        ExtractorRegistry { zip: ZipExtractor, sevenzip: SevenZipExtractor, tar: TarExtractor }
    }

    /// The format of a file, by its name in ASCII lower case.
    pub fn select(&self, file_name: &str) -> (r: Option<ArchiveFormat>)
        ensures
            r == format_of(text::lower(file_name@)),
    {
        let l = text::lower_exec(file_name);
        if self.zip.supports(l.as_str()) {
            Some(ArchiveFormat::Zip)
        } else if self.sevenzip.supports(l.as_str()) {
            Some(ArchiveFormat::SevenZip)
        } else if self.tar.supports(l.as_str()) {
            Some(ArchiveFormat::Tar)
        } else {
            None
        }
    }

    /// Whether some unpacker takes a file of this name (compared in ASCII
    /// lower case).
    pub fn is_supported(&self, file_name: &str) -> (r: bool)
        ensures
            r == format_of(text::lower(file_name@)) is Some,
    {
        self.select(file_name).is_some()
    }

    /// The unpacker for the archive at `archive`, chosen by its file name
    /// in lower case. Refused, naming that lower-case file name (empty if
    /// the path has none), when no unpacker takes it.
    pub fn format_for(&self, archive: &str) -> (r: Result<ArchiveFormat, LastError>)
        ensures
            ({
                let name = text::lower(
                    match path::file_name(archive@) {
                        Some(n) => n,
                        None => Seq::empty(),
                    },
                );
                match r {
                    Ok(f) => format_of(name) == Some(f),
                    Err(e) => format_of(name) is None && e.deep_view() == LastErrorV::UnsupportedArchiveFormat(name),
                }
            }),
    {
        let name = match path::file_name_exec(archive) {
            Some(n) => n,
            None => String::new(),
        };
        let l = text::lower_exec(name.as_str());
        proof {
            assert(text::lower(l@) =~= l@);
        }
        match self.select(l.as_str()) {
            Some(f) => Ok(f),
            None => Err(LastError::UnsupportedArchiveFormat(l)),
        }
    }
}

impl Default for ExtractorRegistry {
    fn default() -> (r: ExtractorRegistry) {
        ExtractorRegistry::new()
    }
}

} // verus!
