//! The decisions of the rotating file output: when to rotate, which rotated
//! files to move or drop, and how much has been written. The file system
//! work is the caller's.
use vstd::prelude::*;
use crate::logger_config::FileRotation;

verus! {

/// One file operation of a rotation, on the numbered files `base.N.ext`.
#[derive(Debug, Clone, Copy, PartialEq, Eq, Structural)]
pub enum RotationStep {
    /// Delete rotated file `N`.
    Remove(u32),
    /// Rename rotated file `from` to `to`.
    Rename { from: u32, to: u32 },
    /// Rename the current file to rotated file 1 and open a new one.
    RotateCurrent,
}

/// A write is preceded by a rotation when rotation is on and the file has
/// reached its maximum size.
pub open spec fn spec_needs_rotation(rotation: Option<FileRotation>, current_size: u64) -> bool {
    match rotation {
        Some(r) => current_size >= r.max_size,
        None => false,
    }
}

pub fn needs_rotation(rotation: &Option<FileRotation>, current_size: u64) -> (b: bool)
    ensures
        b == spec_needs_rotation(*rotation, current_size),
{
    match rotation {
        Some(r) => current_size >= r.max_size,
        None => false,
    }
}

/// The step for rotated file `i` (walking down from `max_files - 1`): the
/// last one kept is dropped, the others move up by one; absent files are
/// left alone.
pub open spec fn step_for(i: u32, max_files: u32, exists: bool) -> Option<RotationStep> {
    if !exists {
        None
    } else if i + 1 >= max_files {
        Some(RotationStep::Remove(i))
    } else {
        Some(RotationStep::Rename { from: i, to: (i + 1) as u32 })
    }
}

/// The steps for files `max_files - 1` down to `lo`, then the current file.
pub open spec fn steps_from(lo: int, max_files: u32, exists: Seq<bool>) -> Seq<RotationStep>
    decreases max_files - lo,
{
    if lo < 1 || lo >= max_files {
        Seq::empty()
    } else {
        let rest = steps_from(lo + 1, max_files, exists);
        match step_for(lo as u32, max_files, exists[lo]) {
            Some(s) => rest.push(s),
            None => rest,
        }
    }
}

/// The steps of a rotation: for `i` from `max_files - 1` down to 1, the
/// step of rotated file `i` (per `exists[i]`), then the current file
/// becomes rotated file 1.
pub open spec fn spec_rotation_steps(max_files: u32, exists: Seq<bool>) -> Seq<RotationStep> {
    steps_from(1, max_files, exists).push(RotationStep::RotateCurrent)
}

/// The steps of a rotation, given which rotated files exist (`exists[i]`
/// for file `i`, `0 < i < max_files`).
pub fn rotation_steps(max_files: u32, exists: &Vec<bool>) -> (steps: Vec<RotationStep>)
    requires
        exists@.len() >= max_files,
    ensures
        steps@ == spec_rotation_steps(max_files, exists@),
{
    let mut steps: Vec<RotationStep> = Vec::new();
    if max_files > 1 {
        let mut i: u32 = max_files - 1;
        loop
            invariant_except_break
                steps@ == steps_from(i + 1, max_files, exists@),
            invariant
                1 <= i < max_files,
                exists@.len() >= max_files,
            ensures
                steps@ == steps_from(1, max_files, exists@),
            decreases i,
        {
            let e = exists[i as usize];
            if e {
                if i + 1 >= max_files {
                    steps.push(RotationStep::Remove(i));
                } else {
                    steps.push(RotationStep::Rename { from: i, to: i + 1 });
                }
            }
            if i == 1 {
                break;
            }
            i = i - 1;
        }
    }
    steps.push(RotationStep::RotateCurrent);
    steps
}

/// The size counted after writing a line and its newline.
pub fn size_after_write(current_size: u64, line_len: usize) -> (n: u64)
    requires
        current_size + line_len + 1 <= u64::MAX,
    ensures
        n == current_size + line_len + 1,
{
    current_size + line_len as u64 + 1
}

} // verus!
