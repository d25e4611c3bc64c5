//! The compute side of the update-check collaborator: given the version
//! fields a release feed reported, decide whether an update should be
//! offered. Fetching the feed and opening the download are the caller's
//! concern.

use vstd::prelude::*;
use vstd::string::StrSliceExecFns;

verus! {

/// What a release feed reported about the newest release.
#[derive(Debug, PartialEq)]
pub struct UpdateInfo {
    pub version: String,
    pub notes: String,
    pub download_url: String,
    pub pub_date: String,
}

impl Clone for UpdateInfo {
    fn clone(&self) -> (res: Self)
        ensures
            res == *self,
    {
        UpdateInfo {
            version: self.version.clone(),
            notes: self.notes.clone(),
            download_url: self.download_url.clone(),
            pub_date: self.pub_date.clone(),
        }
    }
}

/// An update is offered exactly when the reported version is non-empty
/// and differs from the running one.
pub fn update_available(version: &String, current: &String) -> (r: bool)
    ensures
        r == (version@ != current@ && version@.len() > 0),
{
    let nonempty = version.as_str().unicode_len() > 0;
    let differs = !version.eq(current);
    differs && nonempty
}

} // verus!
