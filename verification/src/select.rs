use vstd::prelude::*;
use crate::index::SnapshotIndex;
use crate::index::TagMap;
use crate::FttError;

verus! {

/// A reference to a recorded snapshot: a literal id or a tag label.
pub enum SnapSelector {
    ById(u32),
    ByTag(String),
}

/// A rewind target: a tag label, or a relative offset from the latest
/// snapshot (offset zero is the most recent one).
pub enum RewindSelector {
    ByTag(String),
    Back(usize),
}

/// What resolving a snapshot selector yields against a registry `tags` and
/// an index of `len` snapshots whose ids are exactly 1..=len.
pub open spec fn spec_resolve(tags: Map<Seq<char>, u32>, len: int, sel: Option<SnapSelector>) -> Result<
    u32,
    FttError,
> {
    match sel {
        Option::None => Result::Err(FttError::AmbiguousSelector),
        Option::Some(SnapSelector::ById(id)) => if 1 <= id as int <= len {
            Result::Ok(id)
        } else {
            Result::Err(FttError::UnknownSnapshot)
        },
        Option::Some(SnapSelector::ByTag(l)) => if !tags.contains_key(l@) {
            Result::Err(FttError::UnknownTag)
        } else if 1 <= tags[l@] as int <= len {
            Result::Ok(tags[l@])
        } else {
            Result::Err(FttError::UnknownSnapshot)
        },
    }
}

/// What resolving a rewind target yields.  An empty index refuses every
/// target; an offset at or beyond the history is out of range; offset `n`
/// names the id `len - n`.
pub open spec fn spec_resolve_rewind(
    tags: Map<Seq<char>, u32>,
    len: int,
    sel: Option<RewindSelector>,
) -> Result<u32, FttError> {
    if len == 0 {
        Result::Err(FttError::NoSnapshots)
    } else {
        match sel {
            Option::None => Result::Err(FttError::AmbiguousSelector),
            Option::Some(RewindSelector::ByTag(l)) => if !tags.contains_key(l@) {
                Result::Err(FttError::UnknownTag)
            } else if 1 <= tags[l@] as int <= len {
                Result::Ok(tags[l@])
            } else {
                Result::Err(FttError::UnknownSnapshot)
            },
            Option::Some(RewindSelector::Back(n)) => if (n as int) < len {
                Result::Ok((len - n as int) as u32)
            } else {
                Result::Err(FttError::OutOfRange)
            },
        }
    }
}

/// Resolve a snapshot selector to a recorded id, or say exactly why not:
/// `AmbiguousSelector` when none is supplied, `UnknownTag` for a label the
/// registry lacks, `UnknownSnapshot` for an id the index lacks.
pub fn resolve(index: &SnapshotIndex, tags: &TagMap, sel: &Option<SnapSelector>) -> (r: Result<
    u32,
    FttError,
>)
    requires
        index.wf(),
    ensures
        r == spec_resolve(tags@, index.snapshots().len() as int, *sel),
        (r matches Ok(id) ==> 1 <= id as int <= index.snapshots().len()),
{
    let len = index.len();
    match sel {
        Option::None => Err(FttError::AmbiguousSelector),
        Option::Some(SnapSelector::ById(id)) => {
            if 1 <= *id && (*id as usize) <= len {
                Ok(*id)
            } else {
                Err(FttError::UnknownSnapshot)
            }
        },
        Option::Some(SnapSelector::ByTag(l)) => {
            match tags.get_id(l.as_str()) {
                None => Err(FttError::UnknownTag),
                Some(id) => {
                    if 1 <= id && (id as usize) <= len {
                        Ok(id)
                    } else {
                        Err(FttError::UnknownSnapshot)
                    }
                },
            }
        },
    }
}

/// Resolve a rewind target to a recorded id (see `spec_resolve_rewind`).
pub fn resolve_rewind(index: &SnapshotIndex, tags: &TagMap, sel: &Option<RewindSelector>) -> (r:
    Result<u32, FttError>)
    requires
        index.wf(),
    ensures
        r == spec_resolve_rewind(tags@, index.snapshots().len() as int, *sel),
        (r matches Ok(id) ==> 1 <= id as int <= index.snapshots().len()),
{
    let len = index.len();
    if len == 0 {
        return Err(FttError::NoSnapshots);
    }
    match sel {
        Option::None => Err(FttError::AmbiguousSelector),
        Option::Some(RewindSelector::ByTag(l)) => {
            match tags.get_id(l.as_str()) {
                None => Err(FttError::UnknownTag),
                Some(id) => {
                    if 1 <= id && (id as usize) <= len {
                        Ok(id)
                    } else {
                        Err(FttError::UnknownSnapshot)
                    }
                },
            }
        },
        Option::Some(RewindSelector::Back(n)) => {
            if *n < len {
                proof {
                    index.lemma_len_bound();
                }
                Ok((len - *n) as u32)
            } else {
                Err(FttError::OutOfRange)
            }
        },
    }
}

} // verus!
