//! Service discovery: the features this client announces and those the
//! server announced.

use vstd::prelude::*;
use crate::unicode::{copy_str, str_eq};

verus! {

pub open spec fn feature_views(v: Seq<String>) -> Seq<Seq<char>> {
    v.map_values(|s: String| s@)
}

/// The features of the client and of the server.
#[derive(Debug)]
pub struct Disco {
    pub client_features: Vec<String>,
    pub server_features: Vec<String>,
}

impl Disco {
    pub fn new() -> (r: Self)
        ensures
            r.client_features@.len() == 0,
            r.server_features@.len() == 0,
    {
        Disco { client_features: Vec::new(), server_features: Vec::new() }
    }

    /// Announce `feature` for this client. Always succeeds.
    pub fn add_feature(&mut self, feature: &str) -> (r: Result<(), ()>)
        ensures
            r is Ok,
            feature_views(final(self).client_features@) == feature_views(old(self).client_features@).push(
                feature@,
            ),
            final(self).server_features == old(self).server_features,
    {
        let ghost before = feature_views(self.client_features@);
        self.client_features.push(copy_str(feature));
        assert(feature_views(self.client_features@) =~= before.push(feature@));
        Ok(())
    }

    /// Whether the server announced `feature`.
    pub fn has_feature(&self, feature: &str) -> (r: bool)
        ensures
            r == feature_views(self.server_features@).contains(feature@),
    {
        let ghost fv = feature_views(self.server_features@);
        for i in 0..self.server_features.len()
            invariant
                fv == feature_views(self.server_features@),
                forall|k: int| 0 <= k < i ==> fv[k] != feature@,
        {
            assert(fv[i as int] == self.server_features@[i as int]@);
            if str_eq(self.server_features[i].as_str(), feature) {
                assert(fv.contains(feature@));
                return true;
            }
        }
        false
    }

    /// Record the features of a discovery answer from the server.
    pub fn add_server_features(&mut self, features: Vec<String>)
        ensures
            feature_views(final(self).server_features@) == feature_views(old(self).server_features@)
                + feature_views(features@),
            final(self).client_features == old(self).client_features,
    {
        let ghost before = feature_views(self.server_features@);
        for i in 0..features.len()
            invariant
                feature_views(self.server_features@) == before + feature_views(features@).take(i as int),
                self.client_features == old(self).client_features,
        {
            let ghost mid = feature_views(self.server_features@);
            self.server_features.push(copy_str(features[i].as_str()));
            assert(feature_views(self.server_features@) =~= mid.push(features@[i as int]@));
            assert(feature_views(features@).take(i + 1) =~= feature_views(features@).take(i as int).push(
                features@[i as int]@,
            ));
        }
        assert(feature_views(features@).take(features.len() as int) =~= feature_views(features@));
    }
}

} // verus!
