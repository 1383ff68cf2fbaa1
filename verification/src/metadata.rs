//! The per-file tag snapshot, its modification time and its tag validation.

use vstd::prelude::*;

use crate::error::Error;
use crate::text::{clone_opt, str_eq};

verus! {

/// Opaque identifier of a catalog entry.
pub type FileHandle = u32;

/// The format in which every timestamp is read from and written to files.
pub const DATETIME_FMT: &'static str = "%Y-%m-%d %H:%M:%S %z";

/// Tags of one file, as read from disk.
#[derive(Debug, PartialEq, Eq)]
pub struct Metadata {
    pub source_file: String,
    pub file_modify_date: String,
    pub file_type: String,
    pub file_type_extension: String,
    /// Shared by the image and the video of one Live Photo.
    pub content_identifier: Option<String>,
    /// Codec of a video stream.
    pub compressor_id: Option<String>,
    /// Time of image write or photo scan.
    pub create_date: Option<String>,
    /// Time of shutter actuation.
    pub date_time_original: Option<String>,
    pub artist: Option<String>,
    pub copyright: Option<String>,
    pub gps_altitude: Option<String>,
    pub gps_altitude_ref: Option<String>,
    pub gps_latitude: Option<String>,
    pub gps_latitude_ref: Option<String>,
    pub gps_longitude: Option<String>,
    pub gps_longitude_ref: Option<String>,
    pub make: Option<String>,
    pub model: Option<String>,
}

/// An instant, as seconds since the Unix epoch (UTC) and the nanoseconds past
/// that second. During a leap second `nanos` may exceed 999,999,999.
#[derive(Clone, Copy, Debug, PartialEq, Eq, PartialOrd, Ord, Structural)]
pub struct ModifyDate {
    pub seconds: i64,
    pub nanos: u32,
}

/// A tag that validation looks for.
#[derive(Clone, Copy, Debug, PartialEq, Eq, Structural)]
pub enum Tag {
    GpsAltitude,
    GpsAltitudeRef,
    GpsLatitude,
    GpsLatitudeRef,
    GpsLongitude,
    GpsLongitudeRef,
    Make,
    Model,
    Artist,
    Copyright,
    CreateDate,
    DateTimeOriginal,
}

/// How much a missing tag matters.
#[derive(Clone, Copy, Debug, PartialEq, Eq, Structural)]
pub enum Severity {
    /// The tag is expected on every file.
    Warning,
    /// The tag is only expected from a camera of the owner.
    Note,
}

/// One finding of tag validation: `tag` is not assigned.
#[derive(Clone, Copy, Debug, PartialEq, Eq, Structural)]
pub struct TagWarning {
    pub tag: Tag,
    pub severity: Severity,
}

/// Declares chrono's parse error so that it can be carried through verified
/// code; nothing is known of its contents.
#[verifier::external_type_specification]
#[verifier::external_body]
pub struct ExParseError(chrono::ParseError);

/// What `chrono::DateTime::parse_from_str` makes of `text` under `format`:
/// `None` where it reports an error, otherwise the parsed instant as the
/// result's `timestamp()` and `timestamp_subsec_nanos()`.
pub uninterp spec fn parsed_timestamp(text: Seq<char>, format: Seq<char>) -> Option<(i64, u32)>;

/// Calls `chrono::DateTime::parse_from_str` and hands back the instant it
/// parsed as `(timestamp(), timestamp_subsec_nanos())`. Trusted: parsing is a
/// function of the two strings alone, and this pair orders instants exactly
/// as chrono orders the `DateTime` values themselves.
#[verifier::external_body]
fn parse_timestamp(text: &str, format: &str) -> (r: Result<(i64, u32), chrono::ParseError>)
    ensures
        r is Ok <==> parsed_timestamp(text@, format@) is Some,
        r matches Ok(instant) ==> parsed_timestamp(text@, format@) == Some(instant),
{
    chrono::DateTime::parse_from_str(text, format).map(
        |dt| (dt.timestamp(), dt.timestamp_subsec_nanos()),
    )
}

/// The cameras whose pictures are expected to carry attribution tags.
pub open spec fn my_cameras() -> Set<Seq<char>> {
    set![
        "Canon EOS RP"@,
        "Canon EOS 100D"@,
        "D3100"@,
        "iPhone 12 Mini"@,
        "iPhone XS"@,
        "iPad (6th generation)"@,
        "iPhone X"@,
        "XT1575"@,
        "iPad Air"@,
        "iPhone 6 Plus"@,
        "iPhone 6"@,
        "Pixel"@,
        "iPhone 5"@,
        "PC36100"@,
    ]
}

/// Whether `model` names one of the cameras in [`my_cameras`].
pub fn is_my_camera(model: &str) -> (r: bool)
    ensures
        r == my_cameras().contains(model@),
{
    str_eq(model, "Canon EOS RP") || str_eq(model, "Canon EOS 100D") || str_eq(model, "D3100")
        || str_eq(model, "iPhone 12 Mini") || str_eq(model, "iPhone XS") || str_eq(
        model,
        "iPad (6th generation)",
    ) || str_eq(model, "iPhone X") || str_eq(model, "XT1575") || str_eq(model, "iPad Air")
        || str_eq(model, "iPhone 6 Plus") || str_eq(model, "iPhone 6") || str_eq(model, "Pixel")
        || str_eq(model, "iPhone 5") || str_eq(model, "PC36100")
}

/// The finding for one tag: a singleton if the tag is absent, else nothing.
pub open spec fn missing(absent: bool, tag: Tag, severity: Severity) -> Seq<TagWarning> {
    if absent {
        seq![TagWarning { tag, severity }]
    } else {
        Seq::empty()
    }
}

/// The attribution findings, which depend on whether the camera could be one
/// of the owner's: then artist and copyright are expected; otherwise the
/// model itself is, and artist and copyright are only noted.
pub open spec fn attribution_warnings(m: Metadata) -> Seq<TagWarning> {
    if m.maybe_mine() {
        missing(m.artist is None, Tag::Artist, Severity::Warning) + missing(
            m.copyright is None,
            Tag::Copyright,
            Severity::Warning,
        )
    } else {
        missing(m.model is None, Tag::Model, Severity::Warning) + missing(
            m.artist is None,
            Tag::Artist,
            Severity::Note,
        ) + missing(m.copyright is None, Tag::Copyright, Severity::Note)
    }
}

/// Every finding for one file, in the order in which tags are checked:
/// GPS, make, attribution, dates.
pub open spec fn tag_warnings(m: Metadata) -> Seq<TagWarning> {
    missing(m.gps_altitude is None, Tag::GpsAltitude, Severity::Warning) + missing(
        m.gps_altitude_ref is None,
        Tag::GpsAltitudeRef,
        Severity::Warning,
    ) + missing(m.gps_latitude is None, Tag::GpsLatitude, Severity::Warning) + missing(
        m.gps_latitude_ref is None,
        Tag::GpsLatitudeRef,
        Severity::Warning,
    ) + missing(m.gps_longitude is None, Tag::GpsLongitude, Severity::Warning) + missing(
        m.gps_longitude_ref is None,
        Tag::GpsLongitudeRef,
        Severity::Warning,
    ) + missing(m.make is None, Tag::Make, Severity::Warning) + attribution_warnings(m) + missing(
        m.create_date is None,
        Tag::CreateDate,
        Severity::Warning,
    ) + missing(m.date_time_original is None, Tag::DateTimeOriginal, Severity::Warning)
}

/// The modification time that a stored timestamp string stands for.
pub open spec fn modify_date_of(text: Seq<char>) -> Result<ModifyDate, Error> {
    match parsed_timestamp(text, DATETIME_FMT@) {
        Some(instant) => Ok(ModifyDate { seconds: instant.0, nanos: instant.1 }),
        None => Err(Error::MalformedTimestamp),
    }
}

fn note_missing(out: &mut Vec<TagWarning>, absent: bool, tag: Tag, severity: Severity)
    ensures
        final(out)@ == old(out)@ + missing(absent, tag, severity),
{
    if absent {
        out.push(TagWarning { tag, severity });
        assert(out@ =~= old(out)@ + missing(absent, tag, severity));
    } else {
        assert(out@ =~= old(out)@ + missing(absent, tag, severity));
    }
}

impl ModifyDate {
    /// Whether `self` is strictly later than `other`.
    pub open spec fn later_than(self, other: ModifyDate) -> bool {
        self.seconds > other.seconds || (self.seconds == other.seconds && self.nanos > other.nanos)
    }

    /// Whether `self` is strictly later than `other`.
    pub fn is_later_than(&self, other: &ModifyDate) -> (r: bool)
        ensures
            r == self.later_than(*other),
    {
        self.seconds > other.seconds || (self.seconds == other.seconds && self.nanos > other.nanos)
    }
}

impl Default for Metadata {
    /// A record with empty strings and no optional tag.
    fn default() -> (r: Self)
        ensures
            r.source_file@ == Seq::<char>::empty(),
            r.file_modify_date@ == Seq::<char>::empty(),
            r.file_type@ == Seq::<char>::empty(),
            r.file_type_extension@ == Seq::<char>::empty(),
            r.content_identifier is None,
            r.compressor_id is None,
            r.create_date is None,
            r.date_time_original is None,
            r.artist is None,
            r.copyright is None,
            r.gps_altitude is None,
            r.gps_altitude_ref is None,
            r.gps_latitude is None,
            r.gps_latitude_ref is None,
            r.gps_longitude is None,
            r.gps_longitude_ref is None,
            r.make is None,
            r.model is None,
    {
        Metadata {
            source_file: String::new(),
            file_modify_date: String::new(),
            file_type: String::new(),
            file_type_extension: String::new(),
            content_identifier: None,
            compressor_id: None,
            create_date: None,
            date_time_original: None,
            artist: None,
            copyright: None,
            gps_altitude: None,
            gps_altitude_ref: None,
            gps_latitude: None,
            gps_latitude_ref: None,
            gps_longitude: None,
            gps_longitude_ref: None,
            make: None,
            model: None,
        }
    }
}

impl Clone for Metadata {
    fn clone(&self) -> (r: Self)
        ensures
            r == *self,
    {
        Metadata {
            source_file: self.source_file.clone(),
            file_modify_date: self.file_modify_date.clone(),
            file_type: self.file_type.clone(),
            file_type_extension: self.file_type_extension.clone(),
            content_identifier: clone_opt(&self.content_identifier),
            compressor_id: clone_opt(&self.compressor_id),
            create_date: clone_opt(&self.create_date),
            date_time_original: clone_opt(&self.date_time_original),
            artist: clone_opt(&self.artist),
            copyright: clone_opt(&self.copyright),
            gps_altitude: clone_opt(&self.gps_altitude),
            gps_altitude_ref: clone_opt(&self.gps_altitude_ref),
            gps_latitude: clone_opt(&self.gps_latitude),
            gps_latitude_ref: clone_opt(&self.gps_latitude_ref),
            gps_longitude: clone_opt(&self.gps_longitude),
            gps_longitude_ref: clone_opt(&self.gps_longitude_ref),
            make: clone_opt(&self.make),
            model: clone_opt(&self.model),
        }
    }
}

impl Metadata {
    /// Whether the camera model is one of [`my_cameras`].
    pub open spec fn maybe_mine(self) -> bool {
        self.model is Some && my_cameras().contains(self.model->0@)
    }

    /// The file's modification time. Fails with `MalformedTimestamp` exactly
    /// when the stored string does not parse under [`DATETIME_FMT`].
    pub fn get_file_modify_date(&self) -> (r: Result<ModifyDate, Error>)
        ensures
            r == modify_date_of(self.file_modify_date@),
    {
        match parse_timestamp(self.file_modify_date.as_str(), DATETIME_FMT) {
            Ok(instant) => Ok(ModifyDate { seconds: instant.0, nanos: instant.1 }),
            Err(_) => Err(Error::MalformedTimestamp),
        }
    }

    /// Whether the camera model is in the list of cameras the owner has had.
    pub fn maybe_my_camera(&self) -> (r: bool)
        ensures
            r == self.maybe_mine(),
    {
        match &self.model {
            Some(model) => is_my_camera(model.as_str()),
            None => false,
        }
    }

    /// Appends the attribution findings to `out`.
    fn note_attribution(&self, out: &mut Vec<TagWarning>)
        ensures
            final(out)@ == old(out)@ + attribution_warnings(*self),
    {
        if self.maybe_my_camera() {
            note_missing(out, self.artist.is_none(), Tag::Artist, Severity::Warning);
            note_missing(out, self.copyright.is_none(), Tag::Copyright, Severity::Warning);
        } else {
            note_missing(out, self.model.is_none(), Tag::Model, Severity::Warning);
            note_missing(out, self.artist.is_none(), Tag::Artist, Severity::Note);
            note_missing(out, self.copyright.is_none(), Tag::Copyright, Severity::Note);
        }
        assert(out@ =~= old(out)@ + attribution_warnings(*self));
    }

    /// Checks which expected tags are absent. Every tag is checked; the
    /// findings come in checking order.
    pub fn validate_tags(&self) -> (r: Vec<TagWarning>)
        ensures
            r@ == tag_warnings(*self),
    {
        let mut out: Vec<TagWarning> = Vec::new();
        note_missing(&mut out, self.gps_altitude.is_none(), Tag::GpsAltitude, Severity::Warning);
        assert(out@ =~= missing(self.gps_altitude is None, Tag::GpsAltitude, Severity::Warning));
        note_missing(
            &mut out,
            self.gps_altitude_ref.is_none(),
            Tag::GpsAltitudeRef,
            Severity::Warning,
        );
        note_missing(&mut out, self.gps_latitude.is_none(), Tag::GpsLatitude, Severity::Warning);
        note_missing(
            &mut out,
            self.gps_latitude_ref.is_none(),
            Tag::GpsLatitudeRef,
            Severity::Warning,
        );
        note_missing(&mut out, self.gps_longitude.is_none(), Tag::GpsLongitude, Severity::Warning);
        note_missing(
            &mut out,
            self.gps_longitude_ref.is_none(),
            Tag::GpsLongitudeRef,
            Severity::Warning,
        );
        note_missing(&mut out, self.make.is_none(), Tag::Make, Severity::Warning);
        self.note_attribution(&mut out);
        note_missing(&mut out, self.create_date.is_none(), Tag::CreateDate, Severity::Warning);
        note_missing(
            &mut out,
            self.date_time_original.is_none(),
            Tag::DateTimeOriginal,
            Severity::Warning,
        );
        out
    }
}

} // verus!
