use vstd::prelude::*;

use crate::error::Error;
use crate::textutil::bytes_eq;

verus! {

/// What a deployment must do, decided from the database's state and
/// the migration's id.
#[derive(Copy, Clone, Debug, PartialEq, Eq, Structural)]
pub enum DeployAction {
    /// Execute the target SQL first, then register: only for the zero
    /// migration on a database not yet initialized for this tool.
    DeployInitial,
    /// Register the migration and execute the deploy call in one
    /// transaction: the ordinary case on an initialized database.
    RegisterAndDeploy,
}

/// Decide a deployment. A database not yet initialized accepts only
/// the zero migration, as the initial deployment; any other migration
/// fails with `NotInitialized`. An initialized database registers and
/// deploys.
pub fn deploy_plan(initialised: bool, id: Option<u128>) -> (r: Result<DeployAction, Error>)
    ensures
        match r {
            Ok(a) => {
                &&& initialised ==> a == DeployAction::RegisterAndDeploy
                &&& !initialised ==> a == DeployAction::DeployInitial && id == Some(0u128)
            },
            Err(e) => !initialised && id != Some(0u128) && e == Error::NotInitialized,
        },
{
    if initialised {
        Ok(DeployAction::RegisterAndDeploy)
    } else {
        match id {
            Some(0u128) => Ok(DeployAction::DeployInitial),
            _ => Err(Error::NotInitialized),
        }
    }
}

/// The index of a registered driver name, if any: the first entry that
/// equals the requested name.
pub fn lookup_driver(registered: &Vec<Vec<u8>>, name: &[u8]) -> (r: Option<usize>)
    ensures
        match r {
            Some(i) => i < registered@.len() && registered@[i as int]@ == name@ && forall|j: int|
                0 <= j < i ==> (#[trigger] registered@[j])@ != name@,
            None => forall|j: int|
                0 <= j < registered@.len() ==> (#[trigger] registered@[j])@ != name@,
        },
{
    let mut i: usize = 0;
    while i < registered.len()
        invariant
            i <= registered@.len(),
            forall|j: int| 0 <= j < i ==> (#[trigger] registered@[j])@ != name@,
        decreases registered@.len() - i,
    {
        if bytes_eq(registered[i].as_slice(), name) {
            return Some(i);
        }
        i = i + 1;
    }
    None
}

} // verus!
