//! The registration record of a federation and the key it is stored under.

use crate::federation::{FederationId, InviteCode, InviteCodeView};
use vstd::prelude::*;

verus! {

/// What is kept of a registered federation: the invite code it was
/// registered with, and whether it was made the default federation.
#[derive(Debug, PartialEq, Eq)]
pub struct FederationConfig {
    pub invite_code: InviteCode,
    pub is_default: bool,
}

/// What a [`FederationConfig`] says.
pub struct FederationConfigView {
    pub invite_code: InviteCodeView,
    pub is_default: bool,
}

impl View for FederationConfig {
    type V = FederationConfigView;

    open spec fn view(&self) -> FederationConfigView {
        FederationConfigView { invite_code: self.invite_code@, is_default: self.is_default }
    }
}

impl Clone for FederationConfig {
    fn clone(&self) -> (copy: Self)
        ensures
            copy@ == self@,
    {
        FederationConfig { invite_code: self.invite_code.clone(), is_default: self.is_default }
    }
}

impl FederationConfig {
    /// The federation that this record is about.
    pub fn federation_id(&self) -> (id: FederationId)
        ensures
            id@ == self@.invite_code.federation_id,
    {
        self.invite_code.federation_id()
    }
}

/// The key of a registration record in the store: the federation's identifier.
#[derive(Clone, Copy, Debug, PartialEq, Eq)]
pub struct FederationIdKey {
    pub id: FederationId,
}

} // verus!
