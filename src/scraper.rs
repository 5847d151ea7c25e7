use vstd::prelude::*;

use crate::matchmaker::{Need, NeedView};

verus! {

/// A bounty as found on an issue tracker or bounty board.
#[derive(Debug, Clone)]
pub struct ScrapedBounty {
    pub id: String,
    pub title: String,
    pub description: String,
    pub bounty: Option<String>,
    /// Where it was found, such as `github`.
    pub source: String,
    pub url: Option<String>,
    pub created_at: Option<String>,
}

/// Turns scraped bounties into needs.
pub struct BountyScraper {
    pub github_token: Option<String>,
}

/// The need a bounty becomes: its identifier, title, description and reward.
pub open spec fn need_of(b: ScrapedBounty) -> NeedView {
    NeedView {
        id: b.id@,
        title: b.title@,
        description: b.description@,
        bounty: match b.bounty {
            Some(s) => Some(s@),
            None => None,
        },
    }
}

impl BountyScraper {
    pub fn new(github_token: Option<String>) -> (r: BountyScraper)
        ensures
            r.github_token == github_token,
    {
        BountyScraper { github_token }
    }

    /// One need per bounty, in order.
    pub fn convert_to_needs(&self, bounties: Vec<ScrapedBounty>) -> (r: Vec<Need>)
        ensures
            r@.len() == bounties@.len(),
            forall|i: int| 0 <= i < r@.len() ==> (#[trigger] r@[i])@ == need_of(bounties@[i]),
    {
        let ghost all = bounties@;
        let mut rest = bounties;
        let count = rest.len();
        let mut needs: Vec<Need> = Vec::new();
        while rest.len() > 0
            invariant
                count == all.len(),
                needs@.len() + rest@.len() == count,
                rest@ == all.skip(needs@.len() as int),
                forall|i: int| 0 <= i < needs@.len() ==> (#[trigger] needs@[i])@ == need_of(all[i]),
            decreases rest.len(),
        {
            let b = rest.remove(0);
            assert(b == all[needs@.len() as int]);
            assert(rest@ =~= all.skip(needs@.len() as int + 1));
            needs.push(Need { id: b.id, title: b.title, description: b.description, bounty: b.bounty });
        }
        needs
    }
}

} // verus!
