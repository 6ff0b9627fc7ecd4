//! Generic filesystem helpers: classifying a directory move, the
//! idempotent file deletion, and selecting a game's cover files for
//! bulk cleanup.
//!
//! The caller performs the filesystem steps in the documented order and
//! reports each step's outcome; the decisions — what counts as success,
//! what must not be overwritten, what is reported as partial — are made
//! and specified here.

use vstd::prelude::*;
use crate::numfmt::{dec_str_signed, push_dec_i64};
use crate::textutil::{is_prefix, starts_with_chars, str_chars, string_from_chars};

verus! {

/// The outward result of a directory move: a flag and a user-facing
/// message, as the caller's UI expects them.
#[derive(Debug)]
pub struct MoveResult {
    pub success: bool,
    pub message: String,
}

/// The caller's observation of one attempted directory move, gathered
/// step by step in this order: does the old directory exist; could the
/// new path's parents be created; does the new path already exist; did
/// an atomic rename succeed; did the recursive copy succeed; could the
/// old directory be removed afterwards. Steps after the first decisive
/// one are never performed and their fields are ignored.
#[derive(Debug)]
pub struct MoveObservation {
    pub old_exists: bool,
    pub parent_create_ok: bool,
    pub new_exists: bool,
    pub rename_ok: bool,
    pub copy_ok: bool,
    pub remove_old_ok: bool,
}

/// How a directory move ended.
#[derive(Debug)]
pub enum MoveOutcome {
    /// The old directory does not exist: success, nothing to move.
    SkippedMissingSource,
    /// The new path's parent directories could not be created.
    ParentCreationFailed,
    /// The new path already exists: refused, nothing touched.
    DestinationOccupied,
    /// The atomic rename succeeded.
    MovedByRename,
    /// The rename failed (a cross-volume move, say) and the recursive
    /// copy plus removal of the old directory both succeeded.
    MovedByCopy,
    /// Copied to the new location, but the old directory could not be
    /// removed: partial success, reported distinctly.
    CopiedButSourceRemains,
    /// The fallback copy itself failed.
    CopyFailed,
}

/// The outcome a move observation classifies to, in the precedence the
/// steps are performed: missing source first, then parent creation,
/// then the no-overwrite check, then rename, then copy-and-delete.
pub open spec fn move_outcome_spec(ob: MoveObservation) -> MoveOutcome {
    if !ob.old_exists {
        MoveOutcome::SkippedMissingSource
    } else if !ob.parent_create_ok {
        MoveOutcome::ParentCreationFailed
    } else if ob.new_exists {
        MoveOutcome::DestinationOccupied
    } else if ob.rename_ok {
        MoveOutcome::MovedByRename
    } else if !ob.copy_ok {
        MoveOutcome::CopyFailed
    } else if ob.remove_old_ok {
        MoveOutcome::MovedByCopy
    } else {
        MoveOutcome::CopiedButSourceRemains
    }
}

/// Whether an outcome counts as success.
pub open spec fn move_success_spec(o: MoveOutcome) -> bool {
    o is SkippedMissingSource || o is MovedByRename || o is MovedByCopy
}

/// The user-facing message of an outcome.
pub open spec fn move_message_spec(o: MoveOutcome) -> Seq<char> {
    match o {
        MoveOutcome::SkippedMissingSource => "old backup folder does not exist, nothing to move"@,
        MoveOutcome::ParentCreationFailed => "could not create the destination directory"@,
        MoveOutcome::DestinationOccupied => (
        "a backup folder already exists at the destination, resolve it manually"@),
        MoveOutcome::MovedByRename => "backup folder moved"@,
        MoveOutcome::MovedByCopy => "backup folder moved (by copying)"@,
        MoveOutcome::CopiedButSourceRemains => (
        "folder copied to the new location, but removing the old folder failed"@),
        MoveOutcome::CopyFailed => "moving the folder failed"@,
    }
}

/// Classifies an observed directory move.
///
/// A pre-existing destination is always refused — never overwritten —
/// and a copy whose source could not be removed afterwards is reported
/// as a distinct partial result, not as success.
pub fn move_backup_folder(ob: &MoveObservation) -> (r: MoveResult)
    ensures
        r.success == move_success_spec(move_outcome_spec(*ob)),
        r.message@ == move_message_spec(move_outcome_spec(*ob)),
{
    let outcome = if !ob.old_exists {
        MoveOutcome::SkippedMissingSource
    } else if !ob.parent_create_ok {
        MoveOutcome::ParentCreationFailed
    } else if ob.new_exists {
        MoveOutcome::DestinationOccupied
    } else if ob.rename_ok {
        MoveOutcome::MovedByRename
    } else if !ob.copy_ok {
        MoveOutcome::CopyFailed
    } else if ob.remove_old_ok {
        MoveOutcome::MovedByCopy
    } else {
        MoveOutcome::CopiedButSourceRemains
    };
    let success = match outcome {
        MoveOutcome::SkippedMissingSource => true,
        MoveOutcome::MovedByRename => true,
        MoveOutcome::MovedByCopy => true,
        _ => false,
    };
    let message = match outcome {
        MoveOutcome::SkippedMissingSource => "old backup folder does not exist, nothing to move"
            .to_owned(),
        MoveOutcome::ParentCreationFailed => "could not create the destination directory"
            .to_owned(),
        MoveOutcome::DestinationOccupied =>
            "a backup folder already exists at the destination, resolve it manually".to_owned(),
        MoveOutcome::MovedByRename => "backup folder moved".to_owned(),
        MoveOutcome::MovedByCopy => "backup folder moved (by copying)".to_owned(),
        MoveOutcome::CopiedButSourceRemains =>
            "folder copied to the new location, but removing the old folder failed".to_owned(),
        MoveOutcome::CopyFailed => "moving the folder failed".to_owned(),
    };
    MoveResult { success, message }
}

/// What an idempotent file deletion should do: a missing file is
/// success with nothing to remove — in contrast to a backup deletion,
/// where absence is an error.
#[derive(Debug)]
pub enum DeleteFilePlan {
    AlreadyAbsent,
    Remove,
}

/// Decides the idempotent deletion of a file from its existence.
pub fn delete_file_plan(exists: bool) -> (r: DeleteFilePlan)
    ensures
        exists <==> r is Remove,
{
    if exists {
        DeleteFilePlan::Remove
    } else {
        DeleteFilePlan::AlreadyAbsent
    }
}

/// The file-name prefix of a game's cover files: `cover_{id}_`.
pub open spec fn cover_prefix_spec(game_id: u32) -> Seq<char> {
    "cover_"@ + dec_str_signed(game_id as int) + "_"@
}

/// Renders `cover_{id}_`.
pub fn cover_prefix(game_id: u32) -> (r: Vec<char>)
    ensures
        r@ == cover_prefix_spec(game_id),
{
    let mut out: Vec<char> = Vec::new();
    out.push('c');
    out.push('o');
    out.push('v');
    out.push('e');
    out.push('r');
    out.push('_');
    push_dec_i64(game_id as i64, &mut out);
    out.push('_');
    proof {
        reveal_strlit("cover_");
        reveal_strlit("_");
        assert(out@ =~= cover_prefix_spec(game_id));
    }
    out
}

/// Selects, from a directory listing, the cover files that belong to
/// one game: exactly the names starting with `cover_{id}_`, in listing
/// order. The caller removes them best-effort, one failure not
/// aborting the rest.
pub fn game_cover_files(file_names: &Vec<String>, game_id: u32) -> (r: Vec<String>)
    ensures
        r@.map_values(|s: String| s@) == file_names@.map_values(|s: String| s@).filter(
            |n: Seq<char>| is_prefix(cover_prefix_spec(game_id), n),
        ),
{
    let ghost names = file_names@.map_values(|s: String| s@);
    let prefix = cover_prefix(game_id);
    let mut r: Vec<String> = Vec::new();
    let mut i: usize = 0;
    while i < file_names.len()
        invariant
            i <= file_names@.len(),
            names == file_names@.map_values(|s: String| s@),
            prefix@ == cover_prefix_spec(game_id),
            r@.map_values(|s: String| s@) == names.take(i as int).filter(
                |n: Seq<char>| is_prefix(cover_prefix_spec(game_id), n),
            ),
        decreases file_names@.len() - i,
    {
        let cs = str_chars(file_names[i].as_str());
        proof {
            assert(cs@ == names[i as int]);
        }
        let ghost prev = r@;
        let cond = starts_with_chars(&cs, &prefix);
        if cond {
            r.push(string_from_chars(&cs));
        }
        i = i + 1;
        proof {
            reveal_with_fuel(Seq::<_>::filter, 2);
            let k = (i - 1) as int;
            assert(names.take(i as int).drop_last() =~= names.take(k));
            assert(names.take(i as int).last() == names[k]);
            if cond {
                assert(r@.last()@ == names[k]);
                assert(r@.map_values(|s: String| s@) =~= prev.map_values(|s: String| s@).push(
                    names[k],
                ));
            }
            assert(r@.map_values(|s: String| s@) == names.take(i as int).filter(
                |n: Seq<char>| is_prefix(cover_prefix_spec(game_id), n),
            ));
        }
    }
    proof {
        assert(names.take(names.len() as int) =~= names);
    }
    r
}

} // verus!
