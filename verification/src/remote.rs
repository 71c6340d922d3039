//! Remote descriptions and the credentials used against them.

use vstd::prelude::*;

verus! {

/// Remote information.
#[derive(Clone, Debug)]
pub struct RemoteInfo {
    pub name: String,
    pub url: String,
    pub push_url: Option<String>,
}

/// Mathematical image of a remote.
pub ghost struct RemoteInfoView {
    pub name: Seq<char>,
    pub url: Seq<char>,
    pub push_url: Option<Seq<char>>,
}

impl View for RemoteInfo {
    type V = RemoteInfoView;

    open spec fn view(&self) -> RemoteInfoView {
        RemoteInfoView {
            name: self.name@,
            url: self.url@,
            push_url: match self.push_url {
                Some(u) => Some(u@),
                None => None,
            },
        }
    }
}

/// Auth credentials for remote operations.
pub struct RemoteAuth {
    pub username: String,
    pub password: String,
}

} // verus!
