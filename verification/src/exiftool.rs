//! The command lines for `exiftool`, and the reading of what it prints.
//!
//! Nothing here runs a process: each function gives the arguments of one
//! invocation, for the caller to run.

use vstd::prelude::*;
use vstd::utf8::*;

use crate::metadata::DATETIME_FMT;
use crate::text::views;

verus! {

/// What `exiftool -v` prints on a rename: the old name and the new one, each
/// in quotes, with an arrow between. Group 1 is the new name.
pub const DESTINATION_PATTERN: &'static str = "'.+' --> '(.+)'";

/// The date format by which files are sorted into directories by year and
/// month, with a counter appended where two names collide.
pub const MOVE_DATE_FMT: &'static str = "%Y/%m/%y%m%d_%H%M%S%%+c";

/// The tags that are copied from one file to another.
pub open spec fn sync_args() -> Seq<Seq<char>> {
    seq![
        "-Artist"@,
        "-Copyright"@,
        "-CreateDate"@,
        "-DateTimeOriginal"@,
        "-GPSAltitude"@,
        "-GPSAltitudeRef"@,
        "-GPSLatitude"@,
        "-GPSLatitudeRef"@,
        "-GPSLongitude"@,
        "-GPSLongitudeRef"@,
        "-Make"@,
        "-Model"@,
    ]
}

/// The date format and the tags that are read but never copied.
pub open spec fn sys_args() -> Seq<Seq<char>> {
    seq![
        "-d"@,
        DATETIME_FMT@,
        "-ContentIdentifier"@,
        "-CompressorID"@,
        "-FileModifyDate"@,
        "-FileType"@,
        "-FileTypeExtension"@,
    ]
}

/// The arguments that exclude a directory from a recursive read, if one is
/// given.
pub open spec fn exclude_args(exclude: Option<&str>) -> Seq<Seq<char>> {
    match exclude {
        Some(dir) => seq!["-i"@, dir@],
        None => Seq::empty(),
    }
}

/// What group 1 of the first match of `pattern` in `text` holds, as the
/// regex crate finds it: nothing where the pattern does not compile, where
/// it matches nowhere, or where group 1 took no part in the match.
pub uninterp spec fn regex_first_group(pattern: Seq<char>, text: Seq<char>) -> Option<Seq<char>>;

/// The new name that `exiftool` reported on `stdout`, if `stdout` is text
/// and reports one.
pub open spec fn destination_in(stdout: Seq<u8>) -> Option<Seq<char>> {
    if valid_utf8(stdout) {
        regex_first_group(DESTINATION_PATTERN@, decode_utf8(stdout))
    } else {
        None
    }
}

/// Compiles `pattern` with `regex::Regex::new`, searches `text` with
/// `Regex::captures` and copies out group 1 with `Captures::get`. Trusted:
/// the outcome is a function of the two strings alone; the contract only
/// gives it its name.
#[verifier::external_body]
fn first_group(pattern: &str, text: &str) -> (r: Option<String>)
    ensures
        r is Some <==> regex_first_group(pattern@, text@) is Some,
        r matches Some(s) ==> regex_first_group(pattern@, text@) == Some(s@),
{
    let re = regex::Regex::new(pattern).ok()?;
    let found = re.captures(text)?;
    found.get(1).map(|m| m.as_str().to_owned())
}

/// Calls `String::from_utf8`. Trusted: it succeeds exactly on valid UTF-8,
/// and the string then holds the characters that the bytes encode.
#[verifier::external_body]
fn string_from_utf8(bytes: Vec<u8>) -> (r: Option<String>)
    ensures
        r is Some <==> valid_utf8(bytes@),
        r matches Some(s) ==> s@ == decode_utf8(bytes@),
{
    String::from_utf8(bytes).ok()
}

/// Appends one argument.
fn push_arg(args: &mut Vec<String>, arg: &str)
    ensures
        views(final(args)@) == views(old(args)@).push(arg@),
{
    args.push(arg.to_owned());
    assert(views(args@) =~= views(old(args)@).push(arg@));
}

/// Appends the tags that are copied from one file to another.
fn push_sync_args(args: &mut Vec<String>)
    ensures
        views(final(args)@) == views(old(args)@) + sync_args(),
{
    push_arg(args, "-Artist");
    push_arg(args, "-Copyright");
    push_arg(args, "-CreateDate");
    push_arg(args, "-DateTimeOriginal");
    push_arg(args, "-GPSAltitude");
    push_arg(args, "-GPSAltitudeRef");
    push_arg(args, "-GPSLatitude");
    push_arg(args, "-GPSLatitudeRef");
    push_arg(args, "-GPSLongitude");
    push_arg(args, "-GPSLongitudeRef");
    push_arg(args, "-Make");
    push_arg(args, "-Model");
    assert(views(args@) =~= views(old(args)@) + sync_args());
}

/// Appends the date format and the tags that are read but never copied.
fn push_sys_args(args: &mut Vec<String>)
    ensures
        views(final(args)@) == views(old(args)@) + sys_args(),
{
    push_arg(args, "-d");
    push_arg(args, DATETIME_FMT);
    push_arg(args, "-ContentIdentifier");
    push_arg(args, "-CompressorID");
    push_arg(args, "-FileModifyDate");
    push_arg(args, "-FileType");
    push_arg(args, "-FileTypeExtension");
    assert(views(args@) =~= views(old(args)@) + sys_args());
}

/// The arguments that copy the synchronised tags from `src` to `dst`.
pub fn copy_metadata(src: &str, dst: &str) -> (args: Vec<String>)
    ensures
        views(args@) == seq!["-tagsFromFile"@, src@] + sync_args() + seq![dst@],
{
    let mut args: Vec<String> = Vec::new();
    push_arg(&mut args, "-tagsFromFile");
    push_arg(&mut args, src);
    assert(views(args@) =~= seq!["-tagsFromFile"@, src@]);
    push_sync_args(&mut args);
    push_arg(&mut args, dst);
    assert(views(args@) =~= seq!["-tagsFromFile"@, src@] + sync_args() + seq![dst@]);
    args
}

/// The arguments that create the sidecar of the media file at `path`, with
/// all its tags, beside it. The rename is reported, so that the sidecar's
/// path can be read with [`extract_destination`].
pub fn create_xmp(path: &str) -> (args: Vec<String>)
    ensures
        views(args@) == seq!["-v"@, "-o"@, path@ + ".xmp"@, path@],
{
    let mut sidecar = path.to_owned();
    sidecar.append(".xmp");
    let mut args: Vec<String> = Vec::new();
    push_arg(&mut args, "-v");
    push_arg(&mut args, "-o");
    push_arg(&mut args, sidecar.as_str());
    push_arg(&mut args, path);
    assert(views(args@) =~= seq!["-v"@, "-o"@, path@ + ".xmp"@, path@]);
    args
}

/// The arguments that rename `path` by `fmt`, with the tags of `tag_src`.
/// The rename is reported, so that the new path can be read with
/// [`extract_destination`].
pub fn move_file(fmt: &str, path: &str, tag_src: &str) -> (args: Vec<String>)
    ensures
        views(args@) == seq![
            "-tagsFromFile"@,
            tag_src@,
            "-v"@,
            "-d"@,
            MOVE_DATE_FMT@,
            fmt@,
            path@,
        ],
{
    let mut args: Vec<String> = Vec::new();
    push_arg(&mut args, "-tagsFromFile");
    push_arg(&mut args, tag_src);
    push_arg(&mut args, "-v");
    push_arg(&mut args, "-d");
    push_arg(&mut args, MOVE_DATE_FMT);
    push_arg(&mut args, fmt);
    push_arg(&mut args, path);
    assert(views(args@) =~= seq![
        "-tagsFromFile"@,
        tag_src@,
        "-v"@,
        "-d"@,
        MOVE_DATE_FMT@,
        fmt@,
        path@,
    ]);
    args
}

/// The arguments that read the tags of `path` as JSON.
pub fn read_metadata(path: &str) -> (args: Vec<String>)
    ensures
        views(args@) == sys_args() + sync_args() + seq!["-json"@, path@],
{
    let mut args: Vec<String> = Vec::new();
    assert(views(args@) =~= Seq::<Seq<char>>::empty());
    push_sys_args(&mut args);
    assert(views(args@) =~= sys_args());
    push_sync_args(&mut args);
    push_arg(&mut args, "-json");
    push_arg(&mut args, path);
    assert(views(args@) =~= sys_args() + sync_args() + seq!["-json"@, path@]);
    args
}

/// The arguments that read the tags of every file under `path` as JSON,
/// leaving out the directory `exclude` (the trash, say) if one is given.
pub fn read_metadata_recursive(path: &str, exclude: Option<&str>) -> (args: Vec<String>)
    ensures
        views(args@) == sys_args() + sync_args() + seq!["-json"@, "-r"@, path@] + exclude_args(
            exclude,
        ),
{
    let mut args: Vec<String> = Vec::new();
    assert(views(args@) =~= Seq::<Seq<char>>::empty());
    push_sys_args(&mut args);
    assert(views(args@) =~= sys_args());
    push_sync_args(&mut args);
    push_arg(&mut args, "-json");
    push_arg(&mut args, "-r");
    push_arg(&mut args, path);
    assert(views(args@) =~= sys_args() + sync_args() + seq!["-json"@, "-r"@, path@]);
    match exclude {
        Some(dir) => {
            push_arg(&mut args, "-i");
            push_arg(&mut args, dir);
        },
        None => {},
    }
    assert(views(args@) =~= sys_args() + sync_args() + seq!["-json"@, "-r"@, path@]
        + exclude_args(exclude));
    args
}

/// The destination of a rename, read from what `exiftool -v` printed:
/// the new name of the first `'OLD' --> 'NEW'` in it. Nothing is returned
/// where `stdout` is not UTF-8 or reports no rename.
pub fn extract_destination(stdout: Vec<u8>) -> (r: Option<String>)
    ensures
        r is Some <==> destination_in(stdout@) is Some,
        r matches Some(s) ==> destination_in(stdout@) == Some(s@),
{
    match string_from_utf8(stdout) {
        Some(text) => first_group(DESTINATION_PATTERN, text.as_str()),
        None => None,
    }
}

} // verus!
