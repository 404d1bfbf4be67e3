//! The conditions under which an operation is refused.

use vstd::prelude::*;

verus! {

/// Why an operation was refused.
#[derive(Debug)]
pub enum LastError {
    PackageNotFound(String),
    BucketNotFound(String),
    BucketAlreadyExists(String),
    AppNotInstalled(String),
    AppAlreadyInstalled(String, String),
    NoUrlForArchitecture(String),
    UnsupportedArchiveFormat(String),
    UnknownConfigKey(String),
    UnknownArchitecture(String),
    MissingVersion(String),
    MissingSource(String),
    UnsupportedHashAlgorithm(String),
    InvalidHashSpec(String),
    HashMismatch(String, String, String),
    UnknownMirrorSource(String),
    ArchitectureNotSupported(String, String, String),
    VersionNotAvailable(String, String, String, String),
    PowerShellDisabled,
    MirrorNotConfigured,
    NoRequestedArchitecture(String, String),
    InvalidFtpUrl(String),
    MissingHash(String),
    FtpRefused(String),
    UnsupportedUrlScheme(String),
    MigrateSourceRequired,
}

/// The mathematical form of [`LastError`].
pub enum LastErrorV {
    PackageNotFound(Seq<char>),
    BucketNotFound(Seq<char>),
    BucketAlreadyExists(Seq<char>),
    AppNotInstalled(Seq<char>),
    AppAlreadyInstalled(Seq<char>, Seq<char>),
    NoUrlForArchitecture(Seq<char>),
    UnsupportedArchiveFormat(Seq<char>),
    UnknownConfigKey(Seq<char>),
    UnknownArchitecture(Seq<char>),
    MissingVersion(Seq<char>),
    MissingSource(Seq<char>),
    UnsupportedHashAlgorithm(Seq<char>),
    InvalidHashSpec(Seq<char>),
    HashMismatch(Seq<char>, Seq<char>, Seq<char>),
    UnknownMirrorSource(Seq<char>),
    ArchitectureNotSupported(Seq<char>, Seq<char>, Seq<char>),
    VersionNotAvailable(Seq<char>, Seq<char>, Seq<char>, Seq<char>),
    PowerShellDisabled,
    MirrorNotConfigured,
    NoRequestedArchitecture(Seq<char>, Seq<char>),
    InvalidFtpUrl(Seq<char>),
    MissingHash(Seq<char>),
    FtpRefused(Seq<char>),
    UnsupportedUrlScheme(Seq<char>),
    MigrateSourceRequired,
}

impl DeepView for LastError {
    type V = LastErrorV;

    open spec fn deep_view(&self) -> LastErrorV {
        match self {
            LastError::PackageNotFound(s) => LastErrorV::PackageNotFound(s@),
            LastError::BucketNotFound(s) => LastErrorV::BucketNotFound(s@),
            LastError::BucketAlreadyExists(s) => LastErrorV::BucketAlreadyExists(s@),
            LastError::AppNotInstalled(s) => LastErrorV::AppNotInstalled(s@),
            LastError::AppAlreadyInstalled(a, v) => LastErrorV::AppAlreadyInstalled(a@, v@),
            LastError::NoUrlForArchitecture(s) => LastErrorV::NoUrlForArchitecture(s@),
            LastError::UnsupportedArchiveFormat(s) => LastErrorV::UnsupportedArchiveFormat(s@),
            LastError::UnknownConfigKey(s) => LastErrorV::UnknownConfigKey(s@),
            LastError::UnknownArchitecture(s) => LastErrorV::UnknownArchitecture(s@),
            LastError::MissingVersion(a0) => LastErrorV::MissingVersion(a0@),
            LastError::MissingSource(a0) => LastErrorV::MissingSource(a0@),
            LastError::UnsupportedHashAlgorithm(a0) => LastErrorV::UnsupportedHashAlgorithm(a0@),
            LastError::InvalidHashSpec(a0) => LastErrorV::InvalidHashSpec(a0@),
            LastError::HashMismatch(a0, a1, a2) => LastErrorV::HashMismatch(a0@, a1@, a2@),
            LastError::UnknownMirrorSource(a0) => LastErrorV::UnknownMirrorSource(a0@),
            LastError::ArchitectureNotSupported(a0, a1, a2) => LastErrorV::ArchitectureNotSupported(a0@, a1@, a2@),
            LastError::VersionNotAvailable(a0, a1, a2, a3) => LastErrorV::VersionNotAvailable(a0@, a1@, a2@, a3@),
            LastError::PowerShellDisabled => LastErrorV::PowerShellDisabled,
            LastError::MirrorNotConfigured => LastErrorV::MirrorNotConfigured,
            LastError::NoRequestedArchitecture(a0, a1) => LastErrorV::NoRequestedArchitecture(a0@, a1@),
            LastError::InvalidFtpUrl(a0) => LastErrorV::InvalidFtpUrl(a0@),
            LastError::MissingHash(a0) => LastErrorV::MissingHash(a0@),
            LastError::FtpRefused(a0) => LastErrorV::FtpRefused(a0@),
            LastError::UnsupportedUrlScheme(a0) => LastErrorV::UnsupportedUrlScheme(a0@),
            LastError::MigrateSourceRequired => LastErrorV::MigrateSourceRequired,
        }
    }
}

/// The message shown for an error.
pub open spec fn message_of(e: LastErrorV) -> Seq<char> {
    match e {
        LastErrorV::PackageNotFound(a0) => "package '"@ + a0 + "' not found in any registered bucket"@,
        LastErrorV::BucketNotFound(a0) => "bucket '"@ + a0 + "' is not registered"@,
        LastErrorV::BucketAlreadyExists(a0) => "bucket '"@ + a0 + "' is already registered"@,
        LastErrorV::AppNotInstalled(a0) => "app '"@ + a0 + "' is not installed"@,
        LastErrorV::AppAlreadyInstalled(a0, a1) => "app '"@ + a0 + "' is already installed (version "@ + a1 + ")"@,
        LastErrorV::NoUrlForArchitecture(a0) => "no download URL available for architecture '"@ + a0 + "'"@,
        LastErrorV::UnsupportedArchiveFormat(a0) => "unsupported archive format: "@ + a0,
        LastErrorV::UnknownConfigKey(a0) => "unknown configuration key: "@ + a0,
        LastErrorV::UnknownArchitecture(a0) => "unknown architecture '"@ + a0 + "', expected 64bit, 32bit or arm64"@,
        LastErrorV::MissingVersion(a0) => "manifest '"@ + a0 + "' is missing a 'version' field"@,
        LastErrorV::MissingSource(a0) => "manifest '"@ + a0 + "' has no 'url', 'architecture' or 'installer' field"@,
        LastErrorV::UnsupportedHashAlgorithm(a0) => "unsupported hash algorithm: "@ + a0,
        LastErrorV::InvalidHashSpec(a0) => "invalid hash specification: "@ + a0,
        LastErrorV::HashMismatch(a0, a1, a2) => "hash mismatch: expected "@ + a0 + " "@ + a1 + ", got "@ + a2,
        LastErrorV::UnknownMirrorSource(a0) => "unknown mirror source '"@ + a0 + "', expected 'main' or 'extras'"@,
        LastErrorV::ArchitectureNotSupported(a0, a1, a2) => "manifest '"@ + a0 + "' does not support architecture '"@ + a1 + "' (available: "@ + a2 + ")"@,
        LastErrorV::VersionNotAvailable(a0, a1, a2, a3) => "version '"@ + a0 + "' of '"@ + a1 + "' is not available (bucket '"@ + a2 + "' provides "@ + a3 + ")"@,
        LastErrorV::PowerShellDisabled => "script requires PowerShell compatibility mode, which is disabled"@,
        LastErrorV::MirrorNotConfigured => "mirror.binary_share and mirror.bucket_path must be configured first (see 'last config set mirror.binary_share <path>' and 'last config set mirror.bucket_path <path>')"@,
        LastErrorV::NoRequestedArchitecture(a0, a1) => "manifest '"@ + a0 + "' does not provide any of the requested architectures (available: "@ + a1 + ")"@,
        LastErrorV::InvalidFtpUrl(a0) => "invalid ftp:// URL (no host, or a bad port): "@ + a0,
        LastErrorV::MissingHash(a0) => "manifest does not specify a hash for "@ + a0 + "; hash verification is mandatory"@,
        LastErrorV::FtpRefused(a0) => "the FTP server refused: "@ + a0,
        LastErrorV::UnsupportedUrlScheme(a0) => "unsupported URL scheme: "@ + a0,
        LastErrorV::MigrateSourceRequired => "only 'last migrate --from-scoop' is currently supported"@,
    }
}

impl LastError {
    /// The message shown for the error.
    pub fn message(&self) -> (r: String)
        ensures
            r@ == message_of(self.deep_view()),
    {
        let r = match self {
            LastError::PackageNotFound(a0) => {
                let mut m = String::from_str("package '");
                m.append(a0.as_str());
                m.append("' not found in any registered bucket");
                m
            },
            LastError::BucketNotFound(a0) => {
                let mut m = String::from_str("bucket '");
                m.append(a0.as_str());
                m.append("' is not registered");
                m
            },
            LastError::BucketAlreadyExists(a0) => {
                let mut m = String::from_str("bucket '");
                m.append(a0.as_str());
                m.append("' is already registered");
                m
            },
            LastError::AppNotInstalled(a0) => {
                let mut m = String::from_str("app '");
                m.append(a0.as_str());
                m.append("' is not installed");
                m
            },
            LastError::AppAlreadyInstalled(a0, a1) => {
                let mut m = String::from_str("app '");
                m.append(a0.as_str());
                m.append("' is already installed (version ");
                m.append(a1.as_str());
                m.append(")");
                m
            },
            LastError::NoUrlForArchitecture(a0) => {
                let mut m = String::from_str("no download URL available for architecture '");
                m.append(a0.as_str());
                m.append("'");
                m
            },
            LastError::UnsupportedArchiveFormat(a0) => {
                let mut m = String::from_str("unsupported archive format: ");
                m.append(a0.as_str());
                m
            },
            LastError::UnknownConfigKey(a0) => {
                let mut m = String::from_str("unknown configuration key: ");
                m.append(a0.as_str());
                m
            },
            LastError::UnknownArchitecture(a0) => {
                let mut m = String::from_str("unknown architecture '");
                m.append(a0.as_str());
                m.append("', expected 64bit, 32bit or arm64");
                m
            },
            LastError::MissingVersion(a0) => {
                let mut m = String::from_str("manifest '");
                m.append(a0.as_str());
                m.append("' is missing a 'version' field");
                m
            },
            LastError::MissingSource(a0) => {
                let mut m = String::from_str("manifest '");
                m.append(a0.as_str());
                m.append("' has no 'url', 'architecture' or 'installer' field");
                m
            },
            LastError::UnsupportedHashAlgorithm(a0) => {
                let mut m = String::from_str("unsupported hash algorithm: ");
                m.append(a0.as_str());
                m
            },
            LastError::InvalidHashSpec(a0) => {
                let mut m = String::from_str("invalid hash specification: ");
                m.append(a0.as_str());
                m
            },
            LastError::HashMismatch(a0, a1, a2) => {
                let mut m = String::from_str("hash mismatch: expected ");
                m.append(a0.as_str());
                m.append(" ");
                m.append(a1.as_str());
                m.append(", got ");
                m.append(a2.as_str());
                m
            },
            LastError::UnknownMirrorSource(a0) => {
                let mut m = String::from_str("unknown mirror source '");
                m.append(a0.as_str());
                m.append("', expected 'main' or 'extras'");
                m
            },
            LastError::ArchitectureNotSupported(a0, a1, a2) => {
                let mut m = String::from_str("manifest '");
                m.append(a0.as_str());
                m.append("' does not support architecture '");
                m.append(a1.as_str());
                m.append("' (available: ");
                m.append(a2.as_str());
                m.append(")");
                m
            },
            LastError::VersionNotAvailable(a0, a1, a2, a3) => {
                let mut m = String::from_str("version '");
                m.append(a0.as_str());
                m.append("' of '");
                m.append(a1.as_str());
                m.append("' is not available (bucket '");
                m.append(a2.as_str());
                m.append("' provides ");
                m.append(a3.as_str());
                m.append(")");
                m
            },
            LastError::PowerShellDisabled => {
                let mut m = String::from_str("script requires PowerShell compatibility mode, which is disabled");
                m
            },
            LastError::MirrorNotConfigured => {
                let mut m = String::from_str("mirror.binary_share and mirror.bucket_path must be configured first (see 'last config set mirror.binary_share <path>' and 'last config set mirror.bucket_path <path>')");
                m
            },
            LastError::NoRequestedArchitecture(a0, a1) => {
                let mut m = String::from_str("manifest '");
                m.append(a0.as_str());
                m.append("' does not provide any of the requested architectures (available: ");
                m.append(a1.as_str());
                m.append(")");
                m
            },
            LastError::InvalidFtpUrl(a0) => {
                let mut m = String::from_str("invalid ftp:// URL (no host, or a bad port): ");
                m.append(a0.as_str());
                m
            },
            LastError::MissingHash(a0) => {
                let mut m = String::from_str("manifest does not specify a hash for ");
                m.append(a0.as_str());
                m.append("; hash verification is mandatory");
                m
            },
            LastError::FtpRefused(a0) => {
                let mut m = String::from_str("the FTP server refused: ");
                m.append(a0.as_str());
                m
            },
            LastError::UnsupportedUrlScheme(a0) => {
                let mut m = String::from_str("unsupported URL scheme: ");
                m.append(a0.as_str());
                m
            },
            LastError::MigrateSourceRequired => {
                let mut m = String::from_str("only 'last migrate --from-scoop' is currently supported");
                m
            },
        };
        proof {
            assert(r@ =~= message_of(self.deep_view()));
        }
        r
    }
}

} // verus!
