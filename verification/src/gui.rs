//! The graphical front end's application layer: typed responses, error
//! classification, playful status messages and input validation.
//!
//! Window and widget wiring live at the boundary; what stands here is
//! every rule the front end applies — which error text maps to which
//! code, which inputs are refused, and what follows a finished
//! operation.

use vstd::prelude::*;
use vstd::string::StrSliceExecFns;
use vstd::string::StringExecFns;

use crate::errors::ArchiveError;

verus! {

/// A machine-readable error envelope: a friendly message, the technical
/// details, and a stable code.
#[derive(Debug, Clone)]
pub struct ErrorResponse {
    pub error: String,
    pub details: Option<String>,
    pub code: String,
}

/// A success envelope around any payload.
#[derive(Debug, Clone)]
pub struct SuccessResponse<T> {
    pub success: bool,
    pub data: T,
}

impl<T> SuccessResponse<T> {
    /// Wrap a payload as a success.
    pub fn of(data: T) -> (r: SuccessResponse<T>)
        ensures
            r.success == true,
            r.data == data,
    {
        SuccessResponse { success: true, data }
    }
}

/// Whether `needle` occurs contiguously in `hay`.
pub open spec fn contains_seq(hay: Seq<char>, needle: Seq<char>) -> bool {
    exists|i: int|
        0 <= i <= hay.len() - needle.len() && #[trigger] hay.subrange(i, i + needle.len())
            == needle
}

/// Substring search, character by character.
pub fn str_contains(hay: &str, needle: &str) -> (r: bool)
    ensures
        r == contains_seq(hay@, needle@),
{
    let n = hay.unicode_len();
    let m = needle.unicode_len();
    if m > n {
        return false;
    }
    if m == 0 {
        proof {
            assert(hay@.subrange(0, 0 + needle@.len() as int) =~= needle@);
            assert(contains_seq(hay@, needle@));
        }
        return true;
    }
    let last_start = n - m;
    let mut i: usize = 0;
    while i <= last_start
        invariant
            n == hay@.len(),
            m == needle@.len(),
            0 < m <= n,
            last_start == n - m,
            i <= last_start + 1,
            forall|s: int|
                0 <= s < i ==> #[trigger] hay@.subrange(s, s + needle@.len()) != needle@,
        decreases last_start + 1 - i,
    {
        let mut j: usize = 0;
        let mut matches_here = true;
        while matches_here && j < m
            invariant
                n == hay@.len(),
                m == needle@.len(),
                m <= n,
                i <= n - m,
                last_start == n - m,
                j <= m,
                matches_here ==> forall|k: int| 0 <= k < j ==> hay@[i + k] == needle@[k],
                !matches_here ==> hay@.subrange(i as int, i + needle@.len()) != needle@,
            decreases m - j + if matches_here {
                1 as int
            } else {
                0 as int
            },
        {
            if hay.get_char(i + j) != needle.get_char(j) {
                proof {
                    let jj = j as int;
                    assert(hay@.subrange(i as int, i + needle@.len())[jj] != needle@[jj]);
                }
                matches_here = false;
            } else {
                j += 1;
            }
        }
        if matches_here {
            proof {
                assert(hay@.subrange(i as int, i + needle@.len()) =~= needle@);
            }
            return true;
        }
        i += 1;
    }
    proof {
        if contains_seq(hay@, needle@) {
            let w = choose|s: int|
                0 <= s <= hay@.len() - needle@.len() && #[trigger] hay@.subrange(
                    s,
                    s + needle@.len(),
                ) == needle@;
            assert(hay@.subrange(w, w + needle@.len()) != needle@);
        }
    }
    false
}

/// Which stable code an error message falls under, decided by the same
/// markers the boundary's errors carry.
pub open spec fn classify_spec(msg: Seq<char>) -> Seq<char> {
    if contains_seq(msg, "No such file"@) || contains_seq(msg, "does not exist"@) {
        "FILE_NOT_FOUND"@
    } else if contains_seq(msg, "Permission denied"@) {
        "PERMISSION_DENIED"@
    } else if contains_seq(msg, "Invalid ZIP"@) || contains_seq(msg, "corrupt"@) || contains_seq(
        msg,
        "invalid Zip archive"@,
    ) || contains_seq(msg, "Could not find EOCD"@) {
        "INVALID_ARCHIVE"@
    } else if contains_seq(msg, "No space left"@) {
        "DISK_FULL"@
    } else {
        "UNKNOWN_ERROR"@
    }
}

/// Classify an error message into its stable code.
pub fn classify_error_message(msg: &str) -> (r: String)
    ensures
        r@ == classify_spec(msg@),
{
    if str_contains(msg, "No such file") || str_contains(msg, "does not exist") {
        String::from_str("FILE_NOT_FOUND")
    } else if str_contains(msg, "Permission denied") {
        String::from_str("PERMISSION_DENIED")
    } else if str_contains(msg, "Invalid ZIP") || str_contains(msg, "corrupt") || str_contains(
        msg,
        "invalid Zip archive",
    ) || str_contains(msg, "Could not find EOCD") {
        String::from_str("INVALID_ARCHIVE")
    } else if str_contains(msg, "No space left") {
        String::from_str("DISK_FULL")
    } else {
        String::from_str("UNKNOWN_ERROR")
    }
}

/// ASCII whitespace, as `trim` strips it.
pub open spec fn is_space(c: char) -> bool {
    c == ' ' || c == '\t' || c == '\n' || c == '\r'
}

/// A string that trims to nothing.
pub open spec fn is_blank(s: Seq<char>) -> bool {
    forall|i: int| 0 <= i < s.len() ==> is_space(#[trigger] s[i])
}

/// Whether the string holds nothing but whitespace.
pub fn str_is_blank(s: &str) -> (r: bool)
    ensures
        r == is_blank(s@),
{
    let n = s.unicode_len();
    let mut i: usize = 0;
    while i < n
        invariant
            n == s@.len(),
            i <= n,
            forall|k: int| 0 <= k < i ==> is_space(#[trigger] s@[k]),
        decreases n - i,
    {
        let c = s.get_char(i);
        if !(c == ' ' || c == '\t' || c == '\n' || c == '\r') {
            return false;
        }
        i += 1;
    }
    true
}

/// What `create` demands of its inputs: a usable archive path, at least
/// one file, and no blank file path.
pub open spec fn create_inputs_ok(archive_path: Seq<char>, files: Seq<String>) -> bool {
    &&& !is_blank(archive_path)
    &&& files.len() > 0
    &&& forall|i: int| 0 <= i < files.len() ==> !is_blank((#[trigger] files[i])@)
}

/// Refuse a `create` request with a blank archive path, no files, or a
/// blank file path, before any work is done.
pub fn validate_create_inputs(archive_path: &String, files: &Vec<String>) -> (r: Result<
    (),
    ArchiveError,
>)
    ensures
        r is Ok <==> create_inputs_ok(archive_path@, files@),
        r is Err ==> r->Err_0 == ArchiveError::InputValidation,
{
    if str_is_blank(archive_path.as_str()) {
        return Err(ArchiveError::InputValidation);
    }
    if files.len() == 0 {
        return Err(ArchiveError::InputValidation);
    }
    let mut i: usize = 0;
    while i < files.len()
        invariant
            i <= files@.len(),
            forall|k: int| 0 <= k < i ==> !is_blank((#[trigger] files@[k])@),
        decreases files@.len() - i,
    {
        if str_is_blank(files[i].as_str()) {
            return Err(ArchiveError::InputValidation);
        }
        i += 1;
    }
    Ok(())
}

/// Refuse a blank path argument before any work is done.
pub fn validate_path_input(path: &String) -> (r: Result<(), ArchiveError>)
    ensures
        r is Ok <==> !is_blank(path@),
        r is Err ==> r->Err_0 == ArchiveError::InputValidation,
{
    if str_is_blank(path.as_str()) {
        Err(ArchiveError::InputValidation)
    } else {
        Ok(())
    }
}

/// One operation the window can request from the runner.
#[derive(Debug, Clone)]
pub enum GuiOperation {
    CreateArchive { output: String, files: Vec<String> },
    ExtractArchive { archive: String, output: String },
    ValidateArchive { archive: String },
    CalculateHash { file: String },
}

/// One change the runner asks the window to apply.
#[derive(Debug, Clone)]
pub enum UiUpdate {
    StatusText(String),
    ClearFiles,
    SetPrimaryButtonEnabled(bool),
}

/// What the window does when an operation resolves: show the outcome
/// message and make the primary button usable again.
pub fn completion_updates(message: String) -> (r: Vec<UiUpdate>)
    ensures
        r@.len() == 2,
        r@[0] == UiUpdate::StatusText(message),
        r@[1] == UiUpdate::SetPrimaryButtonEnabled(true),
{
    let mut updates: Vec<UiUpdate> = Vec::new();
    updates.push(UiUpdate::StatusText(message));
    updates.push(UiUpdate::SetPrimaryButtonEnabled(true));
    updates
}

pub open spec fn create_success_message_at(idx: int) -> Seq<char> {
    let k = idx % 8;
    if k == 0 {
        "🎉 Beep boop! Archive assembled!"@
    } else if k == 1 {
        "📦 All packed up like a digital suitcase!"@
    } else if k == 2 {
        "✨ Files bundled with love!"@
    } else if k == 3 {
        "🦀 Rustacean magic complete!"@
    } else if k == 4 {
        "🎯 Compression mission accomplished!"@
    } else if k == 5 {
        "📁 Your files are now mingling together!"@
    } else if k == 6 {
        "🔧 Engineered for awesomeness!"@
    } else {
        "🚀 Launched into the zip dimension!"@
    }
}

/// A celebration line for a finished create; the index picks which, and the boundary draws it at
/// random.
pub fn get_create_success_message(idx: usize) -> (r: String)
    ensures
        r@ == create_success_message_at(idx as int),
{
    let k = idx % 8;
    if k == 0 {
        "🎉 Beep boop! Archive assembled!".to_owned()
    } else if k == 1 {
        "📦 All packed up like a digital suitcase!".to_owned()
    } else if k == 2 {
        "✨ Files bundled with love!".to_owned()
    } else if k == 3 {
        "🦀 Rustacean magic complete!".to_owned()
    } else if k == 4 {
        "🎯 Compression mission accomplished!".to_owned()
    } else if k == 5 {
        "📁 Your files are now mingling together!".to_owned()
    } else if k == 6 {
        "🔧 Engineered for awesomeness!".to_owned()
    } else {
        "🚀 Launched into the zip dimension!".to_owned()
    }
}

pub open spec fn extract_success_message_at(idx: int) -> Seq<char> {
    let k = idx % 12;
    if k == 0 {
        "🎪 Herding llamas..."@
    } else if k == 1 {
        "🔄 Reticulating splines..."@
    } else if k == 2 {
        "🗺️ Mapping distance from Ypsilanti..."@
    } else if k == 3 {
        "🧬 Decompressing digital DNA..."@
    } else if k == 4 {
        "🎭 Unleashing the file spirits..."@
    } else if k == 5 {
        "🔮 Reading the archive tea leaves..."@
    } else if k == 6 {
        "🎨 Painting pixels back to life..."@
    } else if k == 7 {
        "🌟 Sprinkling extraction fairy dust..."@
    } else if k == 8 {
        "🎲 Rolling for file recovery..."@
    } else if k == 9 {
        "⚡ Channeling extraction energy..."@
    } else if k == 10 {
        "🎯 Precision unpacking engaged..."@
    } else {
        "🔧 Reverse-engineering the file puzzle..."@
    }
}

/// A celebration line for a finished extract; the index picks which, and the boundary draws it at
/// random.
pub fn get_extract_success_message(idx: usize) -> (r: String)
    ensures
        r@ == extract_success_message_at(idx as int),
{
    let k = idx % 12;
    if k == 0 {
        "🎪 Herding llamas...".to_owned()
    } else if k == 1 {
        "🔄 Reticulating splines...".to_owned()
    } else if k == 2 {
        "🗺️ Mapping distance from Ypsilanti...".to_owned()
    } else if k == 3 {
        "🧬 Decompressing digital DNA...".to_owned()
    } else if k == 4 {
        "🎭 Unleashing the file spirits...".to_owned()
    } else if k == 5 {
        "🔮 Reading the archive tea leaves...".to_owned()
    } else if k == 6 {
        "🎨 Painting pixels back to life...".to_owned()
    } else if k == 7 {
        "🌟 Sprinkling extraction fairy dust...".to_owned()
    } else if k == 8 {
        "🎲 Rolling for file recovery...".to_owned()
    } else if k == 9 {
        "⚡ Channeling extraction energy...".to_owned()
    } else if k == 10 {
        "🎯 Precision unpacking engaged...".to_owned()
    } else {
        "🔧 Reverse-engineering the file puzzle...".to_owned()
    }
}

pub open spec fn invalid_archive_message_at(idx: int) -> Seq<char> {
    let k = idx % 10;
    if k == 0 {
        "🗑️ Nothing to see here, just a box of digital trash!"@
    } else if k == 1 {
        "🤷 This archive is having an identity crisis!"@
    } else if k == 2 {
        "🚫 Not a valid ZIP file - perhaps it's pretending?"@
    } else if k == 3 {
        "📦 This box seems to be empty... or full of mysteries!"@
    } else if k == 4 {
        "🔍 File format detective says: 'This ain't it, chief!'"@
    } else if k == 5 {
        "💭 Archive.exe has stopped working (because it's not an archive)!"@
    } else if k == 6 {
        "🎭 This file is cosplaying as a ZIP but fooling nobody!"@
    } else if k == 7 {
        "🌪️ Archive integrity: somewhere between 'nope' and 'not happening'!"@
    } else if k == 8 {
        "🔮 The archive oracle says: 'Reply hazy, try again (with a real ZIP)'"@
    } else {
        "🤖 ERROR 404: Valid archive not found!"@
    }
}

/// A friendly line for a container that is no archive; the index picks which, and the boundary draws it at
/// random.
pub fn get_invalid_archive_message(idx: usize) -> (r: String)
    ensures
        r@ == invalid_archive_message_at(idx as int),
{
    let k = idx % 10;
    if k == 0 {
        "🗑️ Nothing to see here, just a box of digital trash!".to_owned()
    } else if k == 1 {
        "🤷 This archive is having an identity crisis!".to_owned()
    } else if k == 2 {
        "🚫 Not a valid ZIP file - perhaps it's pretending?".to_owned()
    } else if k == 3 {
        "📦 This box seems to be empty... or full of mysteries!".to_owned()
    } else if k == 4 {
        "🔍 File format detective says: 'This ain't it, chief!'".to_owned()
    } else if k == 5 {
        "💭 Archive.exe has stopped working (because it's not an archive)!".to_owned()
    } else if k == 6 {
        "🎭 This file is cosplaying as a ZIP but fooling nobody!".to_owned()
    } else if k == 7 {
        "🌪️ Archive integrity: somewhere between 'nope' and 'not happening'!".to_owned()
    } else if k == 8 {
        "🔮 The archive oracle says: 'Reply hazy, try again (with a real ZIP)'".to_owned()
    } else {
        "🤖 ERROR 404: Valid archive not found!".to_owned()
    }
}

pub open spec fn file_not_found_message_at(idx: int) -> Seq<char> {
    let k = idx % 8;
    if k == 0 {
        "🕵️ File went on vacation without leaving a forwarding address!"@
    } else if k == 1 {
        "👻 Spooky! That file has vanished into the digital void!"@
    } else if k == 2 {
        "🎯 Target acquired... wait, no, target has escaped!"@
    } else if k == 3 {
        "🔍 File playing hide and seek (and winning)!"@
    } else if k == 4 {
        "🚀 Houston, we have a missing file problem!"@
    } else if k == 5 {
        "🎪 File has joined the circus and left town!"@
    } else if k == 6 {
        "📍 GPS can't locate this file - it's off the grid!"@
    } else {
        "🌌 File has transcended to another dimension!"@
    }
}

/// A friendly line for a missing file; the index picks which, and the boundary draws it at
/// random.
pub fn get_file_not_found_message(idx: usize) -> (r: String)
    ensures
        r@ == file_not_found_message_at(idx as int),
{
    let k = idx % 8;
    if k == 0 {
        "🕵️ File went on vacation without leaving a forwarding address!".to_owned()
    } else if k == 1 {
        "👻 Spooky! That file has vanished into the digital void!".to_owned()
    } else if k == 2 {
        "🎯 Target acquired... wait, no, target has escaped!".to_owned()
    } else if k == 3 {
        "🔍 File playing hide and seek (and winning)!".to_owned()
    } else if k == 4 {
        "🚀 Houston, we have a missing file problem!".to_owned()
    } else if k == 5 {
        "🎪 File has joined the circus and left town!".to_owned()
    } else if k == 6 {
        "📍 GPS can't locate this file - it's off the grid!".to_owned()
    } else {
        "🌌 File has transcended to another dimension!".to_owned()
    }
}

pub open spec fn permission_denied_message_at(idx: int) -> Seq<char> {
    let k = idx % 8;
    if k == 0 {
        "🚪 Access denied! You shall not pass (without proper permissions)!"@
    } else if k == 1 {
        "🔐 File is locked tighter than Fort Knox!"@
    } else if k == 2 {
        "👮 File bouncer says: 'You're not on the list!'"@
    } else if k == 3 {
        "🎫 Ticket required! Please upgrade your permissions!"@
    } else if k == 4 {
        "🛡️ File is under witness protection!"@
    } else if k == 5 {
        "🏰 The file castle has raised its drawbridge!"@
    } else if k == 6 {
        "🔑 Wrong key! Try asking the file owner nicely!"@
    } else {
        "👑 This file belongs to the digital nobility!"@
    }
}

/// A friendly line for refused access; the index picks which, and the boundary draws it at
/// random.
pub fn get_permission_denied_message(idx: usize) -> (r: String)
    ensures
        r@ == permission_denied_message_at(idx as int),
{
    let k = idx % 8;
    if k == 0 {
        "🚪 Access denied! You shall not pass (without proper permissions)!".to_owned()
    } else if k == 1 {
        "🔐 File is locked tighter than Fort Knox!".to_owned()
    } else if k == 2 {
        "👮 File bouncer says: 'You're not on the list!'".to_owned()
    } else if k == 3 {
        "🎫 Ticket required! Please upgrade your permissions!".to_owned()
    } else if k == 4 {
        "🛡️ File is under witness protection!".to_owned()
    } else if k == 5 {
        "🏰 The file castle has raised its drawbridge!".to_owned()
    } else if k == 6 {
        "🔑 Wrong key! Try asking the file owner nicely!".to_owned()
    } else {
        "👑 This file belongs to the digital nobility!".to_owned()
    }
}

pub open spec fn disk_full_message_at(idx: int) -> Seq<char> {
    let k = idx % 8;
    if k == 0 {
        "💾 Disk is fuller than a Thanksgiving turkey!"@
    } else if k == 1 {
        "📦 Storage overflow! Time for digital spring cleaning!"@
    } else if k == 2 {
        "🚀 Houston, we have a storage problem!"@
    } else if k == 3 {
        "🎪 No more room in the digital circus tent!"@
    } else if k == 4 {
        "🏠 File hotel: 'No Vacancy' sign is up!"@
    } else if k == 5 {
        "📚 Digital library is at maximum capacity!"@
    } else if k == 6 {
        "🎒 Your digital backpack is bursting at the seams!"@
    } else {
        "🌊 Drowning in a sea of ones and zeros!"@
    }
}

/// A friendly line for a full disk; the index picks which, and the boundary draws it at
/// random.
pub fn get_disk_full_message(idx: usize) -> (r: String)
    ensures
        r@ == disk_full_message_at(idx as int),
{
    let k = idx % 8;
    if k == 0 {
        "💾 Disk is fuller than a Thanksgiving turkey!".to_owned()
    } else if k == 1 {
        "📦 Storage overflow! Time for digital spring cleaning!".to_owned()
    } else if k == 2 {
        "🚀 Houston, we have a storage problem!".to_owned()
    } else if k == 3 {
        "🎪 No more room in the digital circus tent!".to_owned()
    } else if k == 4 {
        "🏠 File hotel: 'No Vacancy' sign is up!".to_owned()
    } else if k == 5 {
        "📚 Digital library is at maximum capacity!".to_owned()
    } else if k == 6 {
        "🎒 Your digital backpack is bursting at the seams!".to_owned()
    } else {
        "🌊 Drowning in a sea of ones and zeros!".to_owned()
    }
}

pub open spec fn unknown_error_message_at(idx: int) -> Seq<char> {
    let k = idx % 8;
    if k == 0 {
        "🤖 Beep boop! Something unexpected happened!"@
    } else if k == 1 {
        "🎯 We've encountered a wild error! It's not very effective!"@
    } else if k == 2 {
        "🔧 Oops! A digital gremlin got into the machinery!"@
    } else if k == 3 {
        "🎪 The digital circus has gone off-script!"@
    } else if k == 4 {
        "🌪️ A glitch in the matrix has been detected!"@
    } else if k == 5 {
        "🎲 The dice of fate rolled a critical failure!"@
    } else if k == 6 {
        "🦄 A mythical error appeared! (Very rare!)"@
    } else {
        "⚡ Unexpected plot twist in the file story!"@
    }
}

/// A friendly line for an unexpected failure; the index picks which, and the boundary draws it at
/// random.
pub fn get_unknown_error_message(idx: usize) -> (r: String)
    ensures
        r@ == unknown_error_message_at(idx as int),
{
    let k = idx % 8;
    if k == 0 {
        "🤖 Beep boop! Something unexpected happened!".to_owned()
    } else if k == 1 {
        "🎯 We've encountered a wild error! It's not very effective!".to_owned()
    } else if k == 2 {
        "🔧 Oops! A digital gremlin got into the machinery!".to_owned()
    } else if k == 3 {
        "🎪 The digital circus has gone off-script!".to_owned()
    } else if k == 4 {
        "🌪️ A glitch in the matrix has been detected!".to_owned()
    } else if k == 5 {
        "🎲 The dice of fate rolled a critical failure!".to_owned()
    } else if k == 6 {
        "🦄 A mythical error appeared! (Very rare!)".to_owned()
    } else {
        "⚡ Unexpected plot twist in the file story!".to_owned()
    }
}

pub open spec fn health_check_message_at(idx: int) -> Seq<char> {
    let k = idx % 8;
    if k == 0 {
        "💪 Feeling strong and ready to zip!"@
    } else if k == 1 {
        "🦀 Rustacean health: Excellent!"@
    } else if k == 2 {
        "⚡ All systems nominal, captain!"@
    } else if k == 3 {
        "🎯 Locked and loaded for file operations!"@
    } else if k == 4 {
        "🚀 Ready for launch into archive space!"@
    } else if k == 5 {
        "🔧 All gears properly oiled and spinning!"@
    } else if k == 6 {
        "🌟 Shining bright like a compressed diamond!"@
    } else {
        "🎪 The archive circus is ready for showtime!"@
    }
}

/// A readiness line for the health check; the index picks which, and the boundary draws it at
/// random.
pub fn get_health_check_message(idx: usize) -> (r: String)
    ensures
        r@ == health_check_message_at(idx as int),
{
    let k = idx % 8;
    if k == 0 {
        "💪 Feeling strong and ready to zip!".to_owned()
    } else if k == 1 {
        "🦀 Rustacean health: Excellent!".to_owned()
    } else if k == 2 {
        "⚡ All systems nominal, captain!".to_owned()
    } else if k == 3 {
        "🎯 Locked and loaded for file operations!".to_owned()
    } else if k == 4 {
        "🚀 Ready for launch into archive space!".to_owned()
    } else if k == 5 {
        "🔧 All gears properly oiled and spinning!".to_owned()
    } else if k == 6 {
        "🌟 Shining bright like a compressed diamond!".to_owned()
    } else {
        "🎪 The archive circus is ready for showtime!".to_owned()
    }
}

/// The friendly line matching the message's markers, picked by index.
pub open spec fn friendly_for(msg: Seq<char>, idx: int) -> Seq<char> {
    if contains_seq(msg, "No such file"@) || contains_seq(msg, "does not exist"@) {
        file_not_found_message_at(idx)
    } else if contains_seq(msg, "Permission denied"@) {
        permission_denied_message_at(idx)
    } else if contains_seq(msg, "Invalid ZIP"@) || contains_seq(msg, "corrupt"@) || contains_seq(
        msg,
        "invalid Zip archive"@,
    ) || contains_seq(msg, "Could not find EOCD"@) {
        invalid_archive_message_at(idx)
    } else if contains_seq(msg, "No space left"@) {
        disk_full_message_at(idx)
    } else {
        unknown_error_message_at(idx)
    }
}

/// Turn a boundary error message into the response envelope: a friendly
/// line matching the failure, the technical details, and a stable code.
pub fn build_error_response(msg: &String, pick: usize) -> (r: ErrorResponse)
    ensures
        r.code@ == classify_spec(msg@),
        r.error@ == friendly_for(msg@, pick as int),
        r.details is Some,
        r.details->0@ == "Technical details: "@ + msg@,
{
    let code = classify_error_message(msg.as_str());
    let error = if str_contains(msg.as_str(), "No such file") || str_contains(
        msg.as_str(),
        "does not exist",
    ) {
        get_file_not_found_message(pick)
    } else if str_contains(msg.as_str(), "Permission denied") {
        get_permission_denied_message(pick)
    } else if str_contains(msg.as_str(), "Invalid ZIP") || str_contains(msg.as_str(), "corrupt")
        || str_contains(msg.as_str(), "invalid Zip archive") || str_contains(
        msg.as_str(),
        "Could not find EOCD",
    ) {
        get_invalid_archive_message(pick)
    } else if str_contains(msg.as_str(), "No space left") {
        get_disk_full_message(pick)
    } else {
        get_unknown_error_message(pick)
    };
    let details = String::from_str("Technical details: ").concat(msg.as_str());
    ErrorResponse { error, details: Some(details), code }
}

} // verus!
