//! Deciding what to do when a watched file changes.
//!
//! The decisions are a function from the event and the state of the skeleton
//! of the changed file to one reaction. Carrying the reaction out, and finding
//! the state, is left to the caller. Paths are text with `/` between their
//! components.

use crate::extractor::{extracted, ItemMacros, ItemMacrosModel};
use crate::skeleton::{file_skeleton, lemma_skeleton_unannotated};
use crate::text::{find_last, last_index, to_chars};
use crate::tree::SourceFileModel;
use crate::walker::file_events;
use vstd::prelude::*;
use vstd::string::*;

verus! {

/// Where the file name of a path starts: behind its last `/`, or at the start
/// of a path without one.
pub open spec fn file_name_start(path: Seq<char>) -> int {
    last_index(path, '/') + 1
}

/// The position of the dot that starts the extension of a path, or -1 for a
/// path without an extension. The extension starts at the last dot of the file
/// name, unless that dot is the first character of the file name.
pub open spec fn extension_dot(path: Seq<char>) -> int {
    let dot = last_index(path, '.');
    if dot > file_name_start(path) {
        dot
    } else {
        -1
    }
}

/// The extension of a path: what follows the dot that starts it.
pub open spec fn extension_of(path: Seq<char>) -> Option<Seq<char>> {
    let dot = extension_dot(path);
    if dot >= 0 {
        Some(path.skip(dot + 1))
    } else {
        None
    }
}

/// Whether a path is that of a source file: its extension is `rs`.
pub open spec fn is_source_path(path: Seq<char>) -> bool {
    extension_of(path) == Some("rs"@)
}

/// The path with its extension replaced by `ext`; a path without an extension
/// gets `ext` as its extension.
pub open spec fn with_extension(path: Seq<char>, ext: Seq<char>) -> Seq<char> {
    let dot = extension_dot(path);
    if dot >= 0 {
        path.take(dot) + "."@ + ext
    } else {
        path + "."@ + ext
    }
}

/// Finds the dot that starts the extension of a path, if it has one.
fn find_extension_dot(chars: &Vec<char>) -> (dot: Option<usize>)
    ensures
        match dot {
            Some(at) => at == extension_dot(chars@) && at < chars.len(),
            None => extension_dot(chars@) == -1,
        },
{
    let name_start = match find_last(chars, '/') {
        Some(slash) => slash + 1,
        None => 0,
    };
    match find_last(chars, '.') {
        Some(dot) => if dot > name_start {
            Some(dot)
        } else {
            None
        },
        None => None,
    }
}

/// Whether a path is that of a source file.
pub fn is_source_file(path: &str) -> (is: bool)
    ensures
        is == is_source_path(path@),
{
    let chars = to_chars(path);
    proof {
        reveal_strlit("rs");
    }
    match find_extension_dot(&chars) {
        Some(dot) => {
            let is = chars.len() - dot == 3 && chars[dot + 1] == 'r' && chars[dot + 2] == 's';
            proof {
                let ext = path@.skip(dot + 1);
                if is {
                    assert(ext =~= "rs"@);
                } else if ext.len() == 2 {
                    assert(ext[0] == path@[dot + 1]);
                    assert(ext[1] == path@[dot + 2]);
                }
            }
            is
        },
        None => false,
    }
}

/// Replaces the extension of a path.
fn replace_extension(path: &str, ext: &str) -> (replaced: String)
    ensures
        replaced@ == with_extension(path@, ext@),
{
    let chars = to_chars(path);
    let mut replaced = match find_extension_dot(&chars) {
        Some(dot) => {
            proof {
                assert(path@.subrange(0, dot as int) =~= path@.take(dot as int));
            }
            path.substring_char(0, dot).to_owned()
        },
        None => path.to_owned(),
    };
    replaced.append(".");
    replaced.append(ext);
    replaced
}

/// The path of the skeleton of a source file: the path of the source file with
/// the extension `macros`.
pub fn get_macros_path(src_path: &str) -> (macros_path: String)
    ensures
        macros_path@ == with_extension(src_path@, "macros"@),
{
    replace_extension(src_path, "macros")
}

/// The path of the report on a source file: the path of the source file with
/// the extension `report`.
pub fn get_report_path(src_path: &str) -> (report_path: String)
    ensures
        report_path@ == with_extension(src_path@, "report"@),
{
    replace_extension(src_path, "report")
}

/// What happened to a watched file.
#[derive(Clone, Copy, Debug, PartialEq, Eq, Structural)]
pub enum ChangeKind {
    Create,
    Modify,
    Remove,
    /// Any other notification.
    Other,
}

/// A notification about watched files: what happened, and to which paths.
#[derive(Debug, PartialEq, Eq)]
pub struct ChangeEvent {
    pub kind: ChangeKind,
    pub paths: Vec<String>,
}

/// Model of a [`ChangeEvent`].
pub struct ChangeEventModel {
    pub kind: ChangeKind,
    pub paths: Seq<Seq<char>>,
}

impl View for ChangeEvent {
    type V = ChangeEventModel;

    open spec fn view(&self) -> ChangeEventModel {
        ChangeEventModel { kind: self.kind, paths: self.paths.deep_view() }
    }
}

/// The state of the skeleton of one source file.
#[derive(Clone, Copy, Debug, PartialEq, Eq, Structural)]
pub enum SkeletonState {
    /// There is no skeleton.
    NoSkeleton,
    /// There is a skeleton, and it carries no annotation.
    SkeletonNoAnnotations,
    /// There is a skeleton that carries annotations.
    SkeletonAnnotated,
}

/// What to do about an event.
#[derive(Debug, PartialEq, Eq)]
pub enum Reaction {
    /// Nothing.
    Ignore,
    /// Create an empty skeleton at `skeleton`.
    CreateSkeleton { skeleton: String },
    /// Create the skeleton at `skeleton` and fill it from the source file.
    GenerateSkeleton { source: String, skeleton: String },
    /// Check the source file against the annotations of its skeleton and write
    /// the report, in place of any earlier one.
    VerifyContracts { source: String, skeleton: String, report: String },
    /// Delete the skeleton at `skeleton`.
    DeleteSkeleton { skeleton: String },
}

/// Model of a [`Reaction`].
pub enum ReactionModel {
    Ignore,
    CreateSkeleton { skeleton: Seq<char> },
    GenerateSkeleton { source: Seq<char>, skeleton: Seq<char> },
    VerifyContracts { source: Seq<char>, skeleton: Seq<char>, report: Seq<char> },
    DeleteSkeleton { skeleton: Seq<char> },
}

impl View for Reaction {
    type V = ReactionModel;

    open spec fn view(&self) -> ReactionModel {
        match self {
            Reaction::Ignore => ReactionModel::Ignore,
            Reaction::CreateSkeleton { skeleton } => ReactionModel::CreateSkeleton {
                skeleton: skeleton@,
            },
            Reaction::GenerateSkeleton { source, skeleton } => ReactionModel::GenerateSkeleton {
                source: source@,
                skeleton: skeleton@,
            },
            Reaction::VerifyContracts { source, skeleton, report } => ReactionModel::VerifyContracts {
                source: source@,
                skeleton: skeleton@,
                report: report@,
            },
            Reaction::DeleteSkeleton { skeleton } => ReactionModel::DeleteSkeleton {
                skeleton: skeleton@,
            },
        }
    }
}

/// The source file that an event is about: its first path, if that is the path
/// of a source file.
pub open spec fn watched_source(event: ChangeEventModel) -> Option<Seq<char>> {
    if event.paths.len() > 0 && is_source_path(event.paths[0]) {
        Some(event.paths[0])
    } else {
        None
    }
}

/// The one reaction to an event, given the state of the skeleton of the file
/// that the event is about.
///
/// A created file without a skeleton gets an empty one. A modified file
/// without a skeleton gets a generated one; a modified file with a skeleton is
/// checked against it. A removed file loses its skeleton. Everything else, and
/// every event that is not about a source file, is ignored.
pub open spec fn reaction_to(event: ChangeEventModel, state: SkeletonState) -> ReactionModel {
    match watched_source(event) {
        Some(source) => {
            let skeleton = with_extension(source, "macros"@);
            match event.kind {
                ChangeKind::Create => if state == SkeletonState::NoSkeleton {
                    ReactionModel::CreateSkeleton { skeleton }
                } else {
                    ReactionModel::Ignore
                },
                ChangeKind::Modify => if state == SkeletonState::NoSkeleton {
                    ReactionModel::GenerateSkeleton { source, skeleton }
                } else {
                    ReactionModel::VerifyContracts {
                        source,
                        skeleton,
                        report: with_extension(source, "report"@),
                    }
                },
                ChangeKind::Remove => if state == SkeletonState::NoSkeleton {
                    ReactionModel::Ignore
                } else {
                    ReactionModel::DeleteSkeleton { skeleton }
                },
                ChangeKind::Other => ReactionModel::Ignore,
            }
        },
        None => ReactionModel::Ignore,
    }
}

/// The state of the skeleton once a reaction has ended. A reaction that failed
/// has written nothing and removed nothing, so the state is what it was.
pub open spec fn state_after(
    state: SkeletonState,
    reaction: ReactionModel,
    succeeded: bool,
) -> SkeletonState {
    if !succeeded {
        state
    } else {
        match reaction {
            ReactionModel::Ignore => state,
            ReactionModel::CreateSkeleton { .. } => SkeletonState::SkeletonNoAnnotations,
            ReactionModel::GenerateSkeleton { .. } => SkeletonState::SkeletonNoAnnotations,
            ReactionModel::VerifyContracts { .. } => state,
            ReactionModel::DeleteSkeleton { .. } => SkeletonState::NoSkeleton,
        }
    }
}

/// The state of a skeleton, from whether it exists and from the annotation map
/// that was read from it.
pub open spec fn state_of(exists: bool, map: Seq<ItemMacrosModel>) -> SkeletonState {
    if !exists {
        SkeletonState::NoSkeleton
    } else if map.len() == 0 {
        SkeletonState::SkeletonNoAnnotations
    } else {
        SkeletonState::SkeletonAnnotated
    }
}

/// A skeleton that exists is never created again nor generated again, whatever
/// the event: what a maintainer has added to it stays.
pub proof fn lemma_skeleton_is_kept(event: ChangeEventModel, state: SkeletonState)
    requires
        state != SkeletonState::NoSkeleton,
    ensures
        !(reaction_to(event, state) is CreateSkeleton),
        !(reaction_to(event, state) is GenerateSkeleton),
{
}

/// Where there is no skeleton, nothing is checked and nothing is deleted.
pub proof fn lemma_nothing_without_skeleton(event: ChangeEventModel)
    ensures
        !(reaction_to(event, SkeletonState::NoSkeleton) is VerifyContracts),
        !(reaction_to(event, SkeletonState::NoSkeleton) is DeleteSkeleton),
{
}

/// A skeleton that was just generated is in the state that follows its
/// generation: it exists and carries no annotation.
pub proof fn lemma_generated_skeleton_state(
    file: SourceFileModel,
    state: SkeletonState,
    source: Seq<char>,
    skeleton: Seq<char>,
)
    ensures
        state_of(true, extracted(file_events(file_skeleton(file)))) == state_after(
            state,
            ReactionModel::GenerateSkeleton { source, skeleton },
            true,
        ),
{
    lemma_skeleton_unannotated(file);
}

/// A failure ends one reaction and nothing else: the reaction to the next
/// event is the one that it would have been, had the event whose reaction
/// failed never arrived.
pub proof fn lemma_failure_is_isolated(
    failed: ChangeEventModel,
    next: ChangeEventModel,
    state: SkeletonState,
)
    ensures
        reaction_to(next, state_after(state, reaction_to(failed, state), false)) == reaction_to(
            next,
            state,
        ),
{
}

/// Finds the source file that an event is about, if there is one.
pub fn watched_file(event: &ChangeEvent) -> (source: Option<&String>)
    ensures
        match source {
            Some(path) => watched_source(event@) == Some(path@),
            None => watched_source(event@) is None,
        },
{
    if event.paths.len() > 0 && is_source_file(event.paths[0].as_str()) {
        Some(&event.paths[0])
    } else {
        None
    }
}

/// Classifies the skeleton of a source file.
pub fn skeleton_state(exists: bool, map: &Vec<ItemMacros>) -> (state: SkeletonState)
    ensures
        state == state_of(exists, map.deep_view()),
{
    if !exists {
        SkeletonState::NoSkeleton
    } else if map.len() == 0 {
        SkeletonState::SkeletonNoAnnotations
    } else {
        SkeletonState::SkeletonAnnotated
    }
}

/// Decides the reaction to an event. `state` is the state of the skeleton of
/// the source file that the event is about.
pub fn handle_changes(event: &ChangeEvent, state: SkeletonState) -> (reaction: Reaction)
    ensures
        reaction@ == reaction_to(event@, state),
{
    let path = match watched_file(event) {
        Some(path) => path,
        None => {
            return Reaction::Ignore;
        },
    };
    let macros_path = get_macros_path(path.as_str());
    let present = match state {
        SkeletonState::NoSkeleton => false,
        _ => true,
    };
    match event.kind {
        ChangeKind::Create => {
            if !present {
                Reaction::CreateSkeleton { skeleton: macros_path }
            } else {
                Reaction::Ignore
            }
        },
        ChangeKind::Modify => {
            if !present {
                Reaction::GenerateSkeleton { source: path.clone(), skeleton: macros_path }
            } else {
                Reaction::VerifyContracts {
                    source: path.clone(),
                    skeleton: macros_path,
                    report: get_report_path(path.as_str()),
                }
            }
        },
        ChangeKind::Remove => {
            if present {
                Reaction::DeleteSkeleton { skeleton: macros_path }
            } else {
                Reaction::Ignore
            }
        },
        ChangeKind::Other => Reaction::Ignore,
    }
}

/// The state of the skeleton after a reaction that succeeded or failed.
pub fn next_state(state: SkeletonState, reaction: &Reaction, succeeded: bool) -> (next:
    SkeletonState)
    ensures
        next == state_after(state, reaction@, succeeded),
{
    if !succeeded {
        return state;
    }
    match reaction {
        Reaction::Ignore => state,
        Reaction::CreateSkeleton { .. } => SkeletonState::SkeletonNoAnnotations,
        Reaction::GenerateSkeleton { .. } => SkeletonState::SkeletonNoAnnotations,
        Reaction::VerifyContracts { .. } => state,
        Reaction::DeleteSkeleton { .. } => SkeletonState::NoSkeleton,
    }
}

} // verus!
