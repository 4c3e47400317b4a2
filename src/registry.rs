use vstd::prelude::*;
use vstd::string::StringExecFns;

use crate::provider::{spec_respond, Provider, StorageStep};
use crate::types::RequestMessage;

verus! {

/// Why a tenant store cannot join the registry.
#[derive(Clone, Copy, Debug, PartialEq, Eq, Structural)]
pub enum RegistryError {
    /// A store for this tenant is there already.
    AlreadyLoaded,
    /// The store keeps its files under another data directory.
    OtherDataDir,
}

/// The process-wide map from tenant id to tenant store, with at most one store per
/// tenant.
#[derive(Debug)]
pub struct UserProvider {
    data_dir: String,
    providers: Vec<Provider>,
}

impl UserProvider {
    /// The stores, in the order they joined.
    pub closed spec fn stores(&self) -> Seq<Provider> {
        self.providers@
    }

    pub closed spec fn data_dir_view(&self) -> Seq<char> {
        self.data_dir@
    }

    /// Every store is well formed, keeps its files under the data directory, and
    /// serves a tenant of its own.
    pub open spec fn inv(&self) -> bool {
        &&& forall|i: int| 0 <= i < self.stores().len() ==> (#[trigger] self.stores()[i]).inv()
            && self.stores()[i].data_dir_view() == self.data_dir_view()
        &&& forall|i: int, j: int|
            0 <= i < self.stores().len() && 0 <= j < self.stores().len() && i != j
                ==> (#[trigger] self.stores()[i]).user_id_view() != (#[trigger] self.stores()[j]).user_id_view()
    }

    /// An empty registry over this data directory.
    pub fn new(data_dir: &str) -> (r: UserProvider)
        ensures
            r.inv(),
            r.stores().len() == 0,
            r.data_dir_view() == data_dir@,
    {
        UserProvider { data_dir: String::from_str(data_dir), providers: Vec::new() }
    }

    pub fn data_dir(&self) -> (r: &str)
        ensures
            r@ == self.data_dir_view(),
    {
        self.data_dir.as_str()
    }

    /// The position of the store of this tenant.
    pub fn position(&self, user_id: &str) -> (r: Option<usize>)
        requires
            self.inv(),
        ensures
            match r {
                Some(i) => i < self.stores().len() && self.stores()[i as int].user_id_view() == user_id@,
                None => forall|i: int| 0 <= i < self.stores().len() ==> (#[trigger] self.stores()[i]).user_id_view() != user_id@,
            },
    {
        let key = String::from_str(user_id);
        let mut i: usize = 0;
        while i < self.providers.len()
            invariant
                0 <= i <= self.providers@.len(),
                key@ == user_id@,
                forall|j: int| 0 <= j < i ==> (#[trigger] self.providers@[j]).user_id_view() != user_id@,
            decreases self.providers@.len() - i,
        {
            let uid = self.providers[i].user_id();
            if String::from_str(uid) == key {
                return Some(i);
            }
            i = i + 1;
        }
        None
    }

    /// The store at a position.
    pub fn get(&self, i: usize) -> (r: &Provider)
        requires
            self.inv(),
            i < self.stores().len(),
        ensures
            *r == self.stores()[i as int],
            r.inv(),
    {
        &self.providers[i]
    }

    /// Adds the store of a tenant that has none yet.
    pub fn register(&mut self, provider: Provider) -> (r: Result<usize, RegistryError>)
        requires
            old(self).inv(),
            provider.inv(),
        ensures
            final(self).inv(),
            final(self).data_dir_view() == old(self).data_dir_view(),
            r is Ok <==> provider.data_dir_view() == old(self).data_dir_view() && forall|i: int|
                0 <= i < old(self).stores().len() ==> (#[trigger] old(self).stores()[i]).user_id_view() != provider.user_id_view(),
            match r {
                Ok(i) => i == old(self).stores().len() && final(self).stores() == old(self).stores().push(provider),
                Err(e) => final(self).stores() == old(self).stores() && (e == RegistryError::OtherDataDir
                    <==> provider.data_dir_view() != old(self).data_dir_view()) && (e == RegistryError::AlreadyLoaded
                    ==> exists|i: int| 0 <= i < old(self).stores().len() && (#[trigger] old(self).stores()[i]).user_id_view() == provider.user_id_view()),
            },
    {
        if !(*provider.data_dir_string() == self.data_dir) {
            return Err(RegistryError::OtherDataDir);
        }
        match self.position(provider.user_id()) {
            Some(_) => Err(RegistryError::AlreadyLoaded),
            None => {
                let i = self.providers.len();
                self.providers.push(provider);
                Ok(i)
            },
        }
    }

    /// Serves a request with the store at a position; the other stores do not change.
    pub fn respond_to(&mut self, i: usize, request: RequestMessage) -> (r: StorageStep)
        requires
            old(self).inv(),
            i < old(self).stores().len(),
        ensures
            final(self).inv(),
            final(self).data_dir_view() == old(self).data_dir_view(),
            final(self).stores().len() == old(self).stores().len(),
            forall|j: int| 0 <= j < old(self).stores().len() && j != i ==> #[trigger] final(self).stores()[j] == old(self).stores()[j],
            final(self).stores()[i as int].user_id_view() == old(self).stores()[i as int].user_id_view(),
            final(self).stores()[i as int].data_dir_view() == old(self).stores()[i as int].data_dir_view(),
            (final(self).stores()[i as int].skeleton_view(), r@) == spec_respond(
                old(self).stores()[i as int].data_dir_view(),
                old(self).stores()[i as int].user_id_view(),
                old(self).stores()[i as int].skeleton_view(),
                old(self).stores()[i as int].depth_budget(),
                request@,
            ),
    {
        let mut p = self.providers.remove(i);
        let step = p.respond_to(request);
        self.providers.insert(i, p);
        step
    }
}

} // verus!
