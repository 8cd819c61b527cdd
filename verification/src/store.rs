//! In-memory state shared by server mode: the current site data, and the revision counter
//! whose updates are pushed to connected clients.
use vstd::prelude::*;
use std::sync::Arc;
use crate::text::copy_string;

verus! {

/// `Arc::clone`: a new handle to the same value.
#[verifier::external_body]
fn share<T>(a: &Arc<T>) -> (r: Arc<T>)
    ensures
        r == *a,
{
    Arc::clone(a)
}

/// Holds the most recently published site data.
pub struct SiteStore<T> {
    inner: Option<Arc<T>>,
}

impl<T> SiteStore<T> {
    /// The site data the store holds, if any.
    pub closed spec fn current(&self) -> Option<T> {
        match self.inner {
            Some(a) => Some(*a),
            None => None,
        }
    }

    /// An empty store.
    pub fn new() -> (r: Self)
        ensures
            r.current() == None::<T>,
    {
        SiteStore { inner: None }
    }

    /// Replaces the held site data with `site`.
    pub fn replace(&mut self, site: T)
        ensures
            final(self).current() == Some(site),
    {
        self.inner = Some(Arc::new(site));
    }

    /// A handle to the held site data, if any.
    pub fn get(&self) -> (r: Option<Arc<T>>)
        ensures
            match r {
                Some(a) => self.current() == Some(*a),
                None => self.current() == None::<T>,
            },
    {
        match &self.inner {
            Some(a) => Some(share(a)),
            None => None,
        }
    }
}

/// Payload sent to clients on every data change.
pub struct Update {
    pub revision_epoch: String,
    pub revision: u64,
    pub generated_at: String,
}

/// Numbers the data changes of one server run.
pub struct UpdateNotifier {
    revision_epoch: String,
    revision: u64,
    latest: Update,
}

impl UpdateNotifier {
    /// The run's epoch label.
    pub closed spec fn epoch(&self) -> Seq<char> {
        self.revision_epoch@
    }

    /// Number of updates published so far.
    pub closed spec fn revision_count(&self) -> u64 {
        self.revision
    }

    /// The update a client that subscribes now receives first.
    pub closed spec fn latest_update(&self) -> (Seq<char>, u64, Seq<char>) {
        (self.latest.revision_epoch@, self.latest.revision, self.latest.generated_at@)
    }

    /// A notifier at revision 0, whose initial update carries `initial_generated_at`.
    pub fn new(revision_epoch: String, initial_generated_at: String) -> (r: Self)
        ensures
            r.epoch() == revision_epoch@,
            r.revision_count() == 0,
            r.latest_update() == (revision_epoch@, 0u64, initial_generated_at@),
    {
        let initial = Update {
            revision_epoch: copy_string(&revision_epoch),
            revision: 0,
            generated_at: initial_generated_at,
        };
        UpdateNotifier { revision_epoch, revision: 0, latest: initial }
    }

    /// The update a client that subscribes now receives first.
    pub fn latest(&self) -> (r: Update)
        ensures
            (r.revision_epoch@, r.revision, r.generated_at@) == self.latest_update(),
    {
        Update {
            revision_epoch: copy_string(&self.latest.revision_epoch),
            revision: self.latest.revision,
            generated_at: copy_string(&self.latest.generated_at),
        }
    }

    /// Publishes the next revision, stamped `generated_at`, and returns it.
    pub fn publish(&mut self, generated_at: String) -> (r: Update)
        requires
            old(self).revision_count() < u64::MAX,
        ensures
            r.revision == old(self).revision_count() + 1,
            r.revision_epoch@ == old(self).epoch(),
            r.generated_at@ == generated_at@,
            final(self).epoch() == old(self).epoch(),
            final(self).revision_count() == r.revision,
            final(self).latest_update() == (r.revision_epoch@, r.revision, r.generated_at@),
    {
        self.revision = self.revision + 1;
        let update = Update {
            revision_epoch: copy_string(&self.revision_epoch),
            revision: self.revision,
            generated_at: copy_string(&generated_at),
        };
        self.latest = Update {
            revision_epoch: copy_string(&self.revision_epoch),
            revision: self.revision,
            generated_at,
        };
        update
    }
}

} // verus!
