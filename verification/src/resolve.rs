//! The pure text extraction behind the two path-resolution shell-outs:
//! reading the inode number out of a directory listing, and the dataset
//! name out of a mount-table line. The surrounding process handling
//! stays with the caller; only the decisions on the text live here.

use vstd::prelude::*;

use crate::num::{parse_dec_u64, parse_dec_u64_str};
use crate::text::{str_eq, str_tokens, tokens};

verus! {

/// Why a listing yielded no inode number.
#[derive(Clone, Copy, Debug, PartialEq, Eq, Structural)]
pub enum InodeError {
    /// The listing held no token at all.
    NoToken,
    /// The first token was not an unsigned decimal number.
    BadNumber,
}

/// The inode number at the front of an `ls -i` listing: its first
/// whitespace-separated token read as an unsigned decimal.
pub fn inode_from_listing(s: &str) -> (r: Result<u64, InodeError>)
    ensures
        tokens(s@).len() == 0 <==> r == Result::<u64, InodeError>::Err(InodeError::NoToken),
        tokens(s@).len() > 0 ==> r == match parse_dec_u64(tokens(s@)[0]) {
            Some(v) => Result::<u64, InodeError>::Ok(v),
            None => Result::<u64, InodeError>::Err(InodeError::BadNumber),
        },
{
    let toks = str_tokens(s);
    proof {
        assert(toks.deep_view().len() == toks@.len());
    }
    if toks.len() == 0 {
        return Err(InodeError::NoToken);
    }
    proof {
        assert(toks.deep_view()[0] == toks@[0]@);
    }
    match parse_dec_u64_str(toks[0].as_str()) {
        Some(v) => Ok(v),
        None => Err(InodeError::BadNumber),
    }
}

/// Why a mount-table line yielded no dataset name.
#[derive(Clone, Debug, PartialEq, Eq)]
pub enum DatasetError {
    /// The line held fewer than two fields.
    TooFewFields,
    /// The second field was not the expected filesystem type; the type
    /// found is carried for the caller's message.
    NotZfs(String),
}

/// The dataset name on a `df -T` data line: its first field, accepted
/// only when the second field names the zfs filesystem type.
pub fn dataset_from_df_line(line: &str) -> (r: Result<String, DatasetError>)
    ensures
        tokens(line@).len() < 2 ==> r == Result::<String, DatasetError>::Err(
            DatasetError::TooFewFields,
        ),
        tokens(line@).len() >= 2 ==> match r {
            Result::Ok(name) => tokens(line@)[1] == "zfs"@ && name@ == tokens(line@)[0],
            Result::Err(e) => tokens(line@)[1] != "zfs"@ && (e matches DatasetError::NotZfs(t)
                && t@ == tokens(line@)[1]),
        },
{
    let toks = str_tokens(line);
    proof {
        assert(toks.deep_view().len() == toks@.len());
    }
    if toks.len() < 2 {
        return Err(DatasetError::TooFewFields);
    }
    proof {
        assert(toks.deep_view()[0] == toks@[0]@);
        assert(toks.deep_view()[1] == toks@[1]@);
    }
    if str_eq(toks[1].as_str(), "zfs") {
        Ok(toks[0].clone())
    } else {
        Err(DatasetError::NotZfs(toks[1].clone()))
    }
}

} // verus!
