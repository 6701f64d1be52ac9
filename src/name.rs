use vstd::prelude::*;

use crate::constants::{DNS_MAX_HOSTNAME_LEN, DNS_MAX_LABEL_LEN};
use crate::errors::RenameError;

verus! {

/// ASCII case folding of one byte: `A`..`Z` become `a`..`z`, all else stays.
pub open spec fn fold(b: u8) -> u8 {
    if 65 <= b <= 90 {
        (b + 32) as u8
    } else {
        b
    }
}

/// Folds one byte to ASCII lower case.
pub fn ascii_lower(b: u8) -> (r: u8)
    ensures
        r == fold(b),
{
    if 65 <= b && b <= 90 {
        b + 32
    } else {
        b
    }
}

/// Walking `name` label by label from position `i`, the walk lands on
/// `offset` before it meets a terminator or runs past the end.
pub open spec fn reaches_boundary(name: Seq<u8>, i: int, offset: int) -> bool
    decreases name.len() - i,
{
    if i < 0 || i >= name.len() {
        false
    } else if name[i] == 0 {
        false
    } else if i == offset {
        true
    } else if i + name[i] + 1 >= name.len() {
        false
    } else {
        reaches_boundary(name, i + name[i] + 1, offset)
    }
}

/// From position `i` of `name` (position `i - offset` of `source`) up to the
/// terminator of `name`, every label has the length of the matching label of
/// `source` and the same bytes up to ASCII case.
pub open spec fn labels_match(name: Seq<u8>, source: Seq<u8>, offset: int, i: int) -> bool
    decreases name.len() - i,
{
    if i < 0 || i >= name.len() {
        false
    } else if name[i] == 0 {
        true
    } else {
        let l = name[i] as int;
        &&& source[i - offset] == name[i]
        &&& i + l < name.len()
        &&& forall|k: int|
            1 <= k <= l ==> #[trigger] fold(name[i + k]) == fold(source[i + k - offset])
        &&& labels_match(name, source, offset, i + l + 1)
    }
}

/// Where in `name` a match of `source` would begin.
pub open spec fn match_offset(name: Seq<u8>, source: Seq<u8>) -> int {
    name.len() - source.len()
}

/// `source` matches `name` as a whole or, when `match_suffix` holds, as a
/// suffix that starts on a label boundary of `name`.
pub open spec fn name_matches(name: Seq<u8>, source: Seq<u8>, match_suffix: bool) -> bool {
    let offset = match_offset(name, source);
    &&& name.len() >= source.len()
    &&& match_suffix || name.len() == source.len()
    &&& reaches_boundary(name, 0, offset)
    &&& labels_match(name, source, offset, offset)
}

/// The outcome of substituting `target` for `source` in `name`.
pub open spec fn replace_outcome(
    name: Seq<u8>,
    target: Seq<u8>,
    source: Seq<u8>,
    match_suffix: bool,
) -> Result<Option<Seq<u8>>, RenameError> {
    if source.len() == 0 || target.len() == 0 {
        Err(RenameError::InvalidArgument)
    } else if source[0] == 0 || target[0] == 0 {
        Err(RenameError::InvalidArgument)
    } else if !name_matches(name, source, match_suffix) {
        Ok(None)
    } else if match_offset(name, source) + target.len() > DNS_MAX_HOSTNAME_LEN {
        Err(RenameError::NameTooLong)
    } else {
        Ok(Some(name.subrange(0, match_offset(name, source)) + target))
    }
}

/// The view of what `replace_raw` returns.
pub open spec fn replace_view(r: Result<Option<Vec<u8>>, RenameError>) -> Result<
    Option<Seq<u8>>,
    RenameError,
> {
    match r {
        Ok(Some(v)) => Ok(Some(v@)),
        Ok(None) => Ok(None),
        Err(e) => Err(e),
    }
}

/// From position `i`, `name` is a run of labels of at most
/// `DNS_MAX_LABEL_LEN` bytes each, closed by a terminator at its last byte.
pub open spec fn labels_from(name: Seq<u8>, i: int) -> bool
    decreases name.len() - i,
{
    if i < 0 || i >= name.len() {
        false
    } else if name[i] == 0 {
        i == name.len() - 1
    } else {
        &&& name[i] <= DNS_MAX_LABEL_LEN
        &&& i + name[i] + 1 < name.len()
        &&& labels_from(name, i + name[i] + 1)
    }
}

/// A well-formed flat encoded name.
pub open spec fn valid_name(name: Seq<u8>) -> bool {
    name.len() <= DNS_MAX_HOSTNAME_LEN && labels_from(name, 0)
}

/// `name` with every byte folded to ASCII lower case.
pub open spec fn lower(name: Seq<u8>) -> Seq<u8> {
    name.map_values(|b: u8| fold(b))
}

} // verus!
