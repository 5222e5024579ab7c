//! What is kept on disk between runs: the device identity, the current session, and the
//! pinned location.
//!
//! Keeping the same device across runs is less likely to trip Cloudflare, and keeping
//! the session means that the user does not have to log in again every time the server
//! restarts. Both are secrets, so the file is for its owner only.
use vstd::prelude::*;

use crate::geohash::{is_geohash, is_valid};
use crate::text::{string_of, text_of, texts};

verus! {

/// Everything that is kept in the state file: a device, and a session where there is
/// one.
#[derive(Debug, PartialEq)]
pub struct PersistedState<D, S> {
    pub device: D,
    pub session: Option<S>,
}

/// `std::path::PathBuf`, which is carried and never looked into.
#[verifier::external_type_specification]
#[verifier::external_body]
pub struct ExPathBuf(std::path::PathBuf);

/// Where a path starts.
#[derive(Debug, PartialEq)]
pub enum Base<P> {
    /// At a path that the user gave.
    Given(P),
    /// At the directory for the configuration.
    ConfigDir(P),
    /// At the current directory.
    CurrentDir,
}

/// The path of the state file: names below a base.
#[derive(Debug, PartialEq)]
pub struct StateFile<P> {
    pub base: Base<P>,
    pub below: Vec<String>,
}

/// The names below the directory for the configuration.
pub open spec fn default_names() -> Seq<Seq<char>> {
    seq!["grindr-mcp"@, "state.json"@]
}

/// The path of the state file: the one that the user gave in `GRINDR_MCP_STATE`, or else
/// `grindr-mcp/state.json` below the directory for the configuration, or below the current
/// one where there is no such directory.
pub fn state_file<P>(given: Option<P>, config_dir: Option<P>) -> (r: StateFile<P>)
    ensures
        match given {
            Some(path) => r.base == Base::Given(path) && r.below@.len() == 0,
            None => texts(r.below@) == default_names() && match config_dir {
                Some(dir) => r.base == Base::ConfigDir(dir),
                None => r.base == Base::<P>::CurrentDir,
            },
        },
{
    if let Some(path) = given {
        return StateFile { base: Base::Given(path), below: Vec::new() };
    }
    let mut below: Vec<String> = Vec::new();
    below.push("grindr-mcp".to_owned());
    below.push("state.json".to_owned());
    assert(texts(below@) =~= default_names());
    match config_dir {
        Some(dir) => StateFile { base: Base::ConfigDir(dir), below },
        None => StateFile { base: Base::CurrentDir, below },
    }
}

/// `dirs::config_dir`: the directory for the configuration, where there is one. Nothing is
/// said of the result, which depends on the user and the machine.
#[verifier::external_body]
fn config_dir() -> (r: Option<std::path::PathBuf>) {
    dirs::config_dir()
}

/// Resolves the path of the state file: the one that the user gave, or else
/// `<config dir>/grindr-mcp/state.json`.
pub fn state_path(given: Option<std::path::PathBuf>) -> (r: StateFile<std::path::PathBuf>)
    ensures
        match given {
            Some(path) => r.base == Base::Given(path) && r.below@.len() == 0,
            None => texts(r.below@) == default_names() && !(r.base is Given),
        },
{
    state_file(given, config_dir())
}

/// What came of reading the state file.
#[derive(Debug, PartialEq)]
pub enum Reading<D, S> {
    /// The state that the file holds.
    Found(PersistedState<D, S>),
    /// The file holds no state, and why.
    Unparsable(String),
    /// There is no such file; the device is a newly generated one.
    Missing(D),
    /// The file could not be read, and why.
    Failed(String),
}

/// Why the state could not be loaded or saved: what was being done, where that is told,
/// and what went wrong.
#[derive(Debug, PartialEq)]
pub struct StateError {
    pub context: Option<String>,
    pub reason: String,
}

impl StateError {
    /// Whether the error tells what was being done, and what went wrong.
    pub open spec fn tells(self, context: Option<Seq<char>>, reason: Seq<char>) -> bool {
        string_of(self.context) == context && self.reason@ == reason
    }
}

/// Loads existing state, or makes a fresh one with a newly generated device; `path` is
/// the path of the state file, as it is shown.
///
/// Returns the state and whether it was freshly generated (so the caller can persist it
/// immediately).
pub fn load_or_init<D, S>(path: &str, reading: Reading<D, S>) -> (r: Result<
    (PersistedState<D, S>, bool),
    StateError,
>)
    ensures
        match reading {
            Reading::Found(state) => r == Ok::<_, StateError>((state, false)),
            Reading::Unparsable(reason) => r matches Err(e) && e.tells(
                Some("parsing state file "@ + path@),
                reason@,
            ),
            Reading::Missing(device) => r == Ok::<_, StateError>(
                (PersistedState { device, session: None::<S> }, true),
            ),
            Reading::Failed(reason) => r matches Err(e) && e.tells(
                Some("reading state file "@ + path@),
                reason@,
            ),
        },
{
    match reading {
        Reading::Found(state) => Ok((state, false)),
        Reading::Unparsable(reason) => Err(
            StateError { context: Some("parsing state file ".to_owned().concat(path)), reason },
        ),
        Reading::Missing(device) => Ok((PersistedState { device, session: None }, true)),
        Reading::Failed(reason) => Err(
            StateError { context: Some("reading state file ".to_owned().concat(path)), reason },
        ),
    }
}

/// The extension of the file that the state is written to before it gets its place.
pub const TMP_EXTENSION: &'static str = "json.tmp";

/// The permissions of the state file: its owner can read and write it, and nobody else.
pub const OWNER_ONLY: u32 = 0o600;

/// One step of saving the state.
#[derive(Debug, PartialEq, Eq, Structural, Clone, Copy)]
pub enum SaveStep {
    /// Create the directory of the state file.
    CreateDir,
    /// Turn the state into JSON.
    Serialize,
    /// Write the JSON to the temporary file.
    WriteTemporary,
    /// Give the temporary file the permissions [`OWNER_ONLY`].
    RestrictTemporary,
    /// Give the temporary file the name of the state file.
    RenameTemporary,
}

/// The steps of saving the state; the directory is created where the path names one.
pub open spec fn save_steps(has_parent: bool) -> Seq<SaveStep> {
    let rest = seq![
        SaveStep::Serialize,
        SaveStep::WriteTemporary,
        SaveStep::RestrictTemporary,
        SaveStep::RenameTemporary,
    ];
    if has_parent {
        seq![SaveStep::CreateDir] + rest
    } else {
        rest
    }
}

/// What has to be saved, and the steps in which it is saved: the first step that fails
/// is the last that is taken.
pub fn save<D, S>(device: D, session: Option<S>, has_parent: bool) -> (r: (
    PersistedState<D, S>,
    Vec<SaveStep>,
))
    ensures
        r.0 == (PersistedState { device, session }),
        r.1@ == save_steps(has_parent),
{
    let mut steps: Vec<SaveStep> = Vec::new();
    if has_parent {
        steps.push(SaveStep::CreateDir);
    }
    steps.push(SaveStep::Serialize);
    steps.push(SaveStep::WriteTemporary);
    steps.push(SaveStep::RestrictTemporary);
    steps.push(SaveStep::RenameTemporary);
    assert(steps@ =~= save_steps(has_parent));
    (PersistedState { device, session }, steps)
}

/// What a step of saving does, as far as an error tells it.
pub open spec fn step_context(
    step: SaveStep,
    parent: Seq<char>,
    temporary: Seq<char>,
    path: Seq<char>,
) -> Option<Seq<char>> {
    match step {
        SaveStep::CreateDir => Some("creating state dir "@ + parent),
        SaveStep::Serialize => None,
        SaveStep::WriteTemporary => Some("writing "@ + temporary),
        SaveStep::RestrictTemporary => None,
        SaveStep::RenameTemporary => Some("renaming "@ + temporary + " -> "@ + path),
    }
}

/// The error of a step that failed; the paths are those of the directory, of the
/// temporary file and of the state file, as they are shown.
pub fn save_failed(
    step: SaveStep,
    parent: &str,
    temporary: &str,
    path: &str,
    reason: String,
) -> (r: StateError)
    ensures
        r.tells(step_context(step, parent@, temporary@, path@), reason@),
{
    let context = match step {
        SaveStep::CreateDir => Some("creating state dir ".to_owned().concat(parent)),
        SaveStep::Serialize => None,
        SaveStep::WriteTemporary => Some("writing ".to_owned().concat(temporary)),
        SaveStep::RestrictTemporary => None,
        SaveStep::RenameTemporary => {
            let mut text = "renaming ".to_owned();
            text.append(temporary);
            text.append(" -> ");
            text.append(path);
            Some(text)
        },
    };
    StateError { context, reason }
}

/// The extension of the file next to the state file that holds the pinned location.
pub const PINNED_EXTENSION: &'static str = "geohash";

/// What the file for the pinned location holds.
pub open spec fn pinned_contents(geohash: Seq<char>) -> Seq<char> {
    geohash
}

/// The pinned location, from what the file for it holds, where there is such a file.
pub open spec fn pinned_location(contents: Option<Seq<char>>) -> Option<Seq<char>> {
    match contents {
        Some(text) => if is_geohash(text) {
            Some(text)
        } else {
            None
        },
        None => None,
    }
}

/// The pinned location, from what the file for it holds, where there is such a file.
pub fn load_pinned_geohash(contents: Option<&str>) -> (r: Option<String>)
    ensures
        string_of(r) == pinned_location(text_of(contents)),
{
    match contents {
        Some(text) => if is_valid(text) {
            Some(text.to_owned())
        } else {
            None
        },
        None => None,
    }
}

/// What the file for the pinned location has to hold.
pub fn save_pinned_geohash(geohash: &str) -> (r: String)
    ensures
        r@ == pinned_contents(geohash@),
{
    geohash.to_owned()
}

/// A location that was pinned is the pinned location.
pub proof fn pinning_is_remembered(geohash: Seq<char>)
    requires
        is_geohash(geohash),
    ensures
        pinned_location(Some(pinned_contents(geohash))) == Some(geohash),
{
}

/// The pinned location is always a geohash, whatever the file holds.
pub proof fn a_pinned_location_is_a_geohash(contents: Option<Seq<char>>)
    ensures
        pinned_location(contents) matches Some(geohash) ==> is_geohash(geohash),
{
}

/// A file: what it holds, and whether only its owner can read it.
pub struct FileView {
    pub content: Seq<u8>,
    pub owner_only: bool,
}

/// The files after a step was taken, for a state that is `json`.
pub open spec fn after_step(
    files: Map<Seq<char>, FileView>,
    step: SaveStep,
    temporary: Seq<char>,
    path: Seq<char>,
    json: Seq<u8>,
) -> Map<Seq<char>, FileView> {
    match step {
        SaveStep::CreateDir => files,
        SaveStep::Serialize => files,
        SaveStep::WriteTemporary => files.insert(
            temporary,
            FileView { content: json, owner_only: false },
        ),
        SaveStep::RestrictTemporary => files.insert(
            temporary,
            FileView { content: files[temporary].content, owner_only: true },
        ),
        SaveStep::RenameTemporary => files.remove(temporary).insert(path, files[temporary]),
    }
}

/// The files after the given steps were taken.
pub open spec fn after_steps(
    files: Map<Seq<char>, FileView>,
    steps: Seq<SaveStep>,
    temporary: Seq<char>,
    path: Seq<char>,
    json: Seq<u8>,
) -> Map<Seq<char>, FileView>
    decreases steps.len(),
{
    if steps.len() == 0 {
        files
    } else {
        after_step(
            after_steps(files, steps.drop_last(), temporary, path, json),
            steps.last(),
            temporary,
            path,
            json,
        )
    }
}

/// Wherever saving stops, the state file is the one from before or the whole new one;
/// the new one is for its owner only; and no other file than the temporary one is
/// touched.
pub proof fn the_state_file_is_old_or_new(
    files: Map<Seq<char>, FileView>,
    has_parent: bool,
    n: int,
    temporary: Seq<char>,
    path: Seq<char>,
    json: Seq<u8>,
)
    requires
        temporary != path,
        0 <= n <= save_steps(has_parent).len(),
    ensures
        ({
            let after = after_steps(files, save_steps(has_parent).take(n), temporary, path, json);
            &&& forall|other: Seq<char>|
                other != temporary && other != path ==> files.dom().contains(other)
                    == after.dom().contains(other) && files[other] == after[other]
            &&& if n < save_steps(has_parent).len() {
                files.dom().contains(path) == after.dom().contains(path) && files[path]
                    == after[path]
            } else {
                after.dom().contains(path) && after[path] == (FileView {
                    content: json,
                    owner_only: true,
                }) && !after.dom().contains(temporary)
            }
        }),
{
    let steps = save_steps(has_parent);
    reveal_with_fuel(after_steps, 6);
    if n >= 1 {
        assert(steps.take(n).drop_last() =~= steps.take(n - 1));
    }
    if n >= 2 {
        assert(steps.take(n - 1).drop_last() =~= steps.take(n - 2));
    }
    if n >= 3 {
        assert(steps.take(n - 2).drop_last() =~= steps.take(n - 3));
    }
    if n >= 4 {
        assert(steps.take(n - 3).drop_last() =~= steps.take(n - 4));
    }
    if n >= 5 {
        assert(steps.take(n - 4).drop_last() =~= steps.take(n - 5));
    }
}

/// A state that the file holds is taken as it is and is not new; where there is no file, the
/// state is the new device without a session, and is new; and a file that cannot be read, or
/// cannot be understood, is an error that tells the file and the reason.
pub proof fn loading_is_told<D, S>(
    path: &str,
    state: PersistedState<D, S>,
    device: D,
    reason: String,
    r: Result<(PersistedState<D, S>, bool), StateError>,
)
    ensures
        call_ensures(load_or_init::<D, S>, (path, Reading::Found(state)), r) ==> (r matches Ok(
            loaded,
        ) && loaded.0 == state && !loaded.1),
        call_ensures(load_or_init::<D, S>, (path, Reading::Missing(device)), r) ==> (r matches Ok(
            loaded,
        ) && loaded.0.device == device && loaded.0.session is None && loaded.1),
        call_ensures(load_or_init::<D, S>, (path, Reading::Unparsable(reason)), r) ==> (
        r matches Err(e) && e.context is Some && e.context->Some_0@ == "parsing state file "@ + path@
            && e.reason@ == reason@),
        call_ensures(load_or_init::<D, S>, (path, Reading::Failed(reason)), r) ==> (r matches Err(e)
            && e.context is Some && e.context->Some_0@ == "reading state file "@ + path@
            && e.reason@ == reason@),
{
}

/// The state file is the one that is given, and nothing below it; otherwise it is
/// `grindr-mcp/state.json` below the directory for the configuration, or below the current
/// one where there is no such directory.
pub proof fn the_state_file_is_told<P>(
    given: Option<P>,
    config_dir: Option<P>,
    r: StateFile<P>,
)
    requires
        call_ensures(state_file::<P>, (given, config_dir), r),
    ensures
        given matches Some(path) ==> r.base == Base::Given(path) && r.below@.len() == 0,
        given is None ==> r.below@.len() == 2 && r.below@[0]@ == "grindr-mcp"@ && r.below@[1]@
            == "state.json"@,
        given is None ==> (config_dir matches Some(dir) ==> r.base == Base::ConfigDir(dir)),
        given is None && config_dir is None ==> r.base == Base::<P>::CurrentDir,
{
    if given is None {
        assert(texts(r.below@).len() == 2);
        assert(texts(r.below@)[0] == r.below@[0]@);
        assert(texts(r.below@)[1] == r.below@[1]@);
    }
}

/// The device and the session are saved as they are: the directory is made first, where the
/// path names one, then the state is turned into JSON, written to the temporary file,
/// restricted to its owner and put in its place, in this order.
pub proof fn saving_is_told<D, S>(
    device: D,
    session: Option<S>,
    r: (PersistedState<D, S>, Vec<SaveStep>),
)
    ensures
        call_ensures(save::<D, S>, (device, session, true), r) ==> r.0.device == device
            && r.0.session == session && r.1@ == seq![
            SaveStep::CreateDir,
            SaveStep::Serialize,
            SaveStep::WriteTemporary,
            SaveStep::RestrictTemporary,
            SaveStep::RenameTemporary,
        ],
        call_ensures(save::<D, S>, (device, session, false), r) ==> r.0.device == device
            && r.0.session == session && r.1@ == seq![
            SaveStep::Serialize,
            SaveStep::WriteTemporary,
            SaveStep::RestrictTemporary,
            SaveStep::RenameTemporary,
        ],
        TMP_EXTENSION@ == "json.tmp"@,
        PINNED_EXTENSION@ == "geohash"@,
        OWNER_ONLY == 0o600,
{
    let rest = seq![
        SaveStep::Serialize,
        SaveStep::WriteTemporary,
        SaveStep::RestrictTemporary,
        SaveStep::RenameTemporary,
    ];
    assert(seq![SaveStep::CreateDir] + rest =~= seq![
        SaveStep::CreateDir,
        SaveStep::Serialize,
        SaveStep::WriteTemporary,
        SaveStep::RestrictTemporary,
        SaveStep::RenameTemporary,
    ]);
}

/// The error of a step of saving tells the reason, and the directory, the temporary file, or
/// both files, where the step is about them.
pub proof fn a_failed_step_is_told(
    step: SaveStep,
    parent: &str,
    temporary: &str,
    path: &str,
    reason: String,
    r: StateError,
)
    requires
        call_ensures(save_failed, (step, parent, temporary, path, reason), r),
    ensures
        r.reason@ == reason@,
        step is CreateDir ==> r.context is Some && r.context->Some_0@ == "creating state dir "@
            + parent@,
        step is WriteTemporary ==> r.context is Some && r.context->Some_0@ == "writing "@
            + temporary@,
        step is RenameTemporary ==> r.context is Some && r.context->Some_0@ == "renaming "@
            + temporary@ + " -> "@ + path@,
        step is Serialize || step is RestrictTemporary ==> r.context is None,
{
}

/// The file for the pinned location holds the geohash and nothing else, and what it holds is
/// the pinned location exactly where it is a geohash.
pub proof fn the_pinned_location_is_told(
    geohash: &str,
    text: String,
    contents: Option<&str>,
    r: Option<String>,
)
    ensures
        call_ensures(save_pinned_geohash, (geohash,), text) ==> text@ == geohash@,
        call_ensures(load_pinned_geohash, (contents,), r) ==> (contents matches Some(held) ==> (
        is_geohash(held@) ==> r is Some && r->Some_0@ == held@)),
        call_ensures(load_pinned_geohash, (contents,), r) ==> (contents matches Some(held) ==> (
        !is_geohash(held@) ==> r is None)),
        call_ensures(load_pinned_geohash, (contents,), r) && contents is None ==> r is None,
{
}

/// A path that the user gave is the path of the state file, and nothing else is below it.
pub proof fn a_given_path_is_taken(
    given: Option<std::path::PathBuf>,
    r: StateFile<std::path::PathBuf>,
)
    requires
        call_ensures(state_path, (given,), r),
    ensures
        given matches Some(path) ==> r.base == Base::Given(path) && r.below@.len() == 0,
        given is None ==> !(r.base is Given) && r.below@.len() == 2 && r.below@[0]@
            == "grindr-mcp"@ && r.below@[1]@ == "state.json"@,
{
    if given is None {
        assert(texts(r.below@).len() == 2);
        assert(texts(r.below@)[0] == r.below@[0]@);
        assert(texts(r.below@)[1] == r.below@[1]@);
    }
}

}
