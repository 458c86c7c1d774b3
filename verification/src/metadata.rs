//! The metadata and entry model.  A backend reports raw, optional object
//! attributes; the caller supplies a metakey mask saying which fields it
//! wants; metadata is assembled with an explicit tri-state per field, so
//! "not requested" is never confused with "requested but absent" or with a
//! defined empty value.

use vstd::prelude::*;

verus! {

/// The mode of a stored object.
#[derive(Clone, Copy, PartialEq, Eq, Structural, Debug)]
pub enum EntryMode {
    File,
    Dir,
    Unknown,
}

/// The host-boundary code of a mode, a stable public contract.
pub open spec fn spec_mode_code(m: EntryMode) -> i32 {
    match m {
        EntryMode::File => 0,
        EntryMode::Dir => 1,
        EntryMode::Unknown => 2,
    }
}

impl EntryMode {
    /// Serialize the mode to its fixed host-boundary code.
    pub fn code(&self) -> (r: i32)
        ensures
            r == spec_mode_code(*self),
    {
        match self {
            EntryMode::File => 0,
            EntryMode::Dir => 1,
            EntryMode::Unknown => 2,
        }
    }
}

/// The mask of metadata fields a caller wants populated.  `complete`
/// requests every field regardless of the individual flags.
#[derive(Clone, Copy, PartialEq, Eq, Structural, Debug)]
pub struct Metakey {
    pub complete: bool,
    pub content_length: bool,
    pub content_disposition: bool,
    pub content_md5: bool,
    pub content_type: bool,
    pub cache_control: bool,
    pub etag: bool,
    pub last_modified: bool,
    pub version: bool,
}

impl Metakey {
    /// The mask that requests no optional field.
    pub fn none() -> (r: Metakey)
        ensures
            r == (Metakey {
                complete: false,
                content_length: false,
                content_disposition: false,
                content_md5: false,
                content_type: false,
                cache_control: false,
                etag: false,
                last_modified: false,
                version: false,
            }),
    {
        Metakey {
            complete: false,
            content_length: false,
            content_disposition: false,
            content_md5: false,
            content_type: false,
            cache_control: false,
            etag: false,
            last_modified: false,
            version: false,
        }
    }

    /// The mask that requests every field.
    pub fn complete() -> (r: Metakey)
        ensures
            r.complete,
    {
        Metakey {
            complete: true,
            content_length: true,
            content_disposition: true,
            content_md5: true,
            content_type: true,
            cache_control: true,
            etag: true,
            last_modified: true,
            version: true,
        }
    }
}

/// A point in time as seconds and subsecond nanoseconds since the epoch.
#[derive(Clone, Copy, PartialEq, Eq, Structural, Debug)]
pub struct Timestamp {
    pub seconds: i64,
    pub nanos: u32,
}

/// The tri-state of a requested-or-not string attribute.
#[derive(Clone, PartialEq, Eq, Debug)]
pub enum StringField {
    NotRequested,
    Absent,
    Known(String),
}

/// The tri-state of a requested-or-not timestamp attribute.
#[derive(Clone, Copy, PartialEq, Eq, Structural, Debug)]
pub enum TimeField {
    NotRequested,
    Absent,
    Known(Timestamp),
}

/// The state of the content length: a backend always knows the length of
/// an object it reports, so the field has no "absent" case, but it is
/// populated only when requested, never conflated with a zero length.
#[derive(Clone, Copy, PartialEq, Eq, Structural, Debug)]
pub enum LengthField {
    NotRequested,
    Known(u64),
}

/// The raw attributes a backend reports for one object, before any
/// metakey mask is applied.
#[derive(Clone, PartialEq, Eq, Debug)]
pub struct RawMeta {
    pub mode: EntryMode,
    pub content_length: u64,
    pub content_disposition: Option<String>,
    pub content_md5: Option<String>,
    pub content_type: Option<String>,
    pub cache_control: Option<String>,
    pub etag: Option<String>,
    pub last_modified: Option<Timestamp>,
    pub version: Option<String>,
}

impl RawMeta {
    /// The raw attributes of a plain file of the given length, with no
    /// further attributes reported.
    pub fn file(content_length: u64) -> (r: RawMeta)
        ensures
            r == RawMeta::spec_file(content_length),
    {
        RawMeta {
            mode: EntryMode::File,
            content_length,
            content_disposition: None,
            content_md5: None,
            content_type: None,
            cache_control: None,
            etag: None,
            last_modified: None,
            version: None,
        }
    }

    /// What `RawMeta::file` builds.
    pub open spec fn spec_file(content_length: u64) -> RawMeta {
        RawMeta {
            mode: EntryMode::File,
            content_length,
            content_disposition: None,
            content_md5: None,
            content_type: None,
            cache_control: None,
            etag: None,
            last_modified: None,
            version: None,
        }
    }
}

/// Whether a field guarded by `flag` is requested under the mask: either
/// directly, or because the mask requests the complete set.
pub open spec fn spec_requested(flag: bool, mk: Metakey) -> bool {
    flag || mk.complete
}

/// How one optional string attribute is projected under the mask.
pub open spec fn spec_string_field(raw: Option<String>, flag: bool, mk: Metakey) -> StringField {
    if spec_requested(flag, mk) {
        match raw {
            Some(v) => StringField::Known(v),
            None => StringField::Absent,
        }
    } else {
        StringField::NotRequested
    }
}

/// How the timestamp attribute is projected under the mask.
pub open spec fn spec_time_field(raw: Option<Timestamp>, flag: bool, mk: Metakey) -> TimeField {
    if spec_requested(flag, mk) {
        match raw {
            Some(v) => TimeField::Known(v),
            None => TimeField::Absent,
        }
    } else {
        TimeField::NotRequested
    }
}

/// How the content length is projected under the mask.
pub open spec fn spec_length_field(raw: u64, flag: bool, mk: Metakey) -> LengthField {
    if spec_requested(flag, mk) {
        LengthField::Known(raw)
    } else {
        LengthField::NotRequested
    }
}

fn string_field(raw: &Option<String>, flag: bool, mk: &Metakey) -> (r: StringField)
    ensures
        r == spec_string_field(*raw, flag, *mk),
{
    if flag || mk.complete {
        match raw {
            Some(v) => StringField::Known(v.clone()),
            None => StringField::Absent,
        }
    } else {
        StringField::NotRequested
    }
}

/// A typed, partially populated descriptor of one stored object.  The
/// mode is always known; every other field carries its tri-state under
/// the metakey mask the caller supplied.
#[derive(Clone, PartialEq, Eq, Debug)]
pub struct Metadata {
    pub mode: EntryMode,
    pub content_length: LengthField,
    pub content_disposition: StringField,
    pub content_md5: StringField,
    pub content_type: StringField,
    pub cache_control: StringField,
    pub etag: StringField,
    pub last_modified: TimeField,
    pub version: StringField,
}

/// What `Metadata::assemble` builds: each field projected from the raw
/// attributes under the mask, field by field.
pub open spec fn spec_assemble(raw: RawMeta, mk: Metakey) -> Metadata {
    Metadata {
        mode: raw.mode,
        content_length: spec_length_field(raw.content_length, mk.content_length, mk),
        content_disposition: spec_string_field(
            raw.content_disposition,
            mk.content_disposition,
            mk,
        ),
        content_md5: spec_string_field(raw.content_md5, mk.content_md5, mk),
        content_type: spec_string_field(raw.content_type, mk.content_type, mk),
        cache_control: spec_string_field(raw.cache_control, mk.cache_control, mk),
        etag: spec_string_field(raw.etag, mk.etag, mk),
        last_modified: spec_time_field(raw.last_modified, mk.last_modified, mk),
        version: spec_string_field(raw.version, mk.version, mk),
    }
}

impl Metadata {
    /// Assemble metadata from the raw backend attributes under the given
    /// metakey mask: a requested field is `Known` when the backend
    /// reported it and `Absent` when it did not; an unrequested field is
    /// `NotRequested`; a complete mask requests every field.
    pub fn assemble(raw: &RawMeta, mk: &Metakey) -> (r: Metadata)
        ensures
            r == spec_assemble(*raw, *mk),
    {
        let content_length = if mk.content_length || mk.complete {
            LengthField::Known(raw.content_length)
        } else {
            LengthField::NotRequested
        };
        let last_modified = if mk.last_modified || mk.complete {
            match raw.last_modified {
                Some(v) => TimeField::Known(v),
                None => TimeField::Absent,
            }
        } else {
            TimeField::NotRequested
        };
        Metadata {
            mode: raw.mode,
            content_length,
            content_disposition: string_field(&raw.content_disposition, mk.content_disposition, mk),
            content_md5: string_field(&raw.content_md5, mk.content_md5, mk),
            content_type: string_field(&raw.content_type, mk.content_type, mk),
            cache_control: string_field(&raw.cache_control, mk.cache_control, mk),
            etag: string_field(&raw.etag, mk.etag, mk),
            last_modified,
            version: string_field(&raw.version, mk.version, mk),
        }
    }

    /// The content length as it crosses a host boundary whose integers
    /// are signed 64-bit: the sentinel -1 stands only for "not
    /// requested", never for a defined zero length, and a known length
    /// beyond the signed range saturates.
    pub fn content_length_code(&self) -> (r: i64)
        ensures
            r == spec_content_length_code(*self),
    {
        match self.content_length {
            LengthField::NotRequested => -1i64,
            LengthField::Known(v) => crate::capability::limit_field(v),
        }
    }
}

/// What `content_length_code` returns.
pub open spec fn spec_content_length_code(m: Metadata) -> i64 {
    match m.content_length {
        LengthField::NotRequested => -1i64,
        LengthField::Known(v) => crate::capability::spec_limit_field(v),
    }
}

/// A listed object: its path paired with a metadata snapshot.  Paths are
/// forward-slash separated byte strings; a directory path ends with a
/// slash.
#[derive(Clone, PartialEq, Eq, Debug)]
pub struct Entry {
    pub path: Vec<u8>,
    pub metadata: Metadata,
}

impl Entry {
    /// Pair a path with its metadata snapshot.
    pub fn new(path: Vec<u8>, metadata: Metadata) -> (r: Entry)
        ensures
            r.path == path,
            r.metadata == metadata,
    {
        Entry { path, metadata }
    }
}

/// Repeated projections of the same raw attributes under the same mask
/// agree on every field: assembling metadata is a pure function of the
/// two, so stat calls on an unmodified object describe it identically.
pub proof fn lemma_assemble_deterministic(raw1: RawMeta, raw2: RawMeta, mk1: Metakey, mk2: Metakey)
    requires
        raw1 == raw2,
        mk1 == mk2,
    ensures
        spec_assemble(raw1, mk1) == spec_assemble(raw2, mk2),
{
}

/// Requesting exactly one field yields that field populated and every
/// other optional field marked not requested — never absent, and never a
/// sentinel that could be confused with a defined value.
pub proof fn lemma_single_field_projection(raw: RawMeta, mk: Metakey)
    requires
        mk == (Metakey {
            complete: false,
            content_length: true,
            content_disposition: false,
            content_md5: false,
            content_type: false,
            cache_control: false,
            etag: false,
            last_modified: false,
            version: false,
        }),
    ensures
        spec_assemble(raw, mk).content_length == LengthField::Known(raw.content_length),
        spec_assemble(raw, mk).content_disposition == StringField::NotRequested,
        spec_assemble(raw, mk).content_md5 == StringField::NotRequested,
        spec_assemble(raw, mk).content_type == StringField::NotRequested,
        spec_assemble(raw, mk).cache_control == StringField::NotRequested,
        spec_assemble(raw, mk).etag == StringField::NotRequested,
        spec_assemble(raw, mk).last_modified == TimeField::NotRequested,
        spec_assemble(raw, mk).version == StringField::NotRequested,
        spec_content_length_code(spec_assemble(raw, mk)) >= 0,
{
}

} // verus!
