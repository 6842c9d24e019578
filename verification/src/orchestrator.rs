//! The transfer orchestrator: given source and destination locators,
//! negotiate a direct transfer where the two backend kinds share a native
//! bulk path, and otherwise fall back — always — to the staged path
//! through temporary storage.

use vstd::prelude::*;

use crate::error::Error;
use crate::locator::{
    lemma_render_injective, supports_direct_transfer, BigQueryLocator, GsLocator, Locator,
};

verus! {

/// Where transient staging data may be written: candidate location
/// descriptors supplied by the caller, tried in order. Scoped to one
/// transfer.
pub struct TemporaryStorage {
    /// Candidate locations, as locator addresses.
    pub locations: Vec<String>,
}

/// How one transfer will be executed.
pub enum TransferPlan {
    /// The destination consumes the source natively; temporary storage is
    /// never touched.
    Direct,
    /// Extract the source into the staging locator, then stream it from
    /// there into the destination's local-write path.
    Staged {
        /// The staging area, scoped to this transfer.
        temp: GsLocator,
    },
}

impl Locator {
    /// Whether this locator, as a destination, can consume data at rest
    /// at `source` directly. Decided from the two backend kinds alone.
    pub fn supports_write_remote_data(&self, source: &Locator) -> (r: bool)
        ensures
            r == supports_direct_transfer(source.kind_spec(), self.kind_spec()),
    {
        match (source, self) {
            (Locator::Gs(_), Locator::BigQuery(_)) => true,
            (Locator::BigQuery(_), Locator::Gs(_)) => true,
            _ => false,
        }
    }
}

/// Resolve an object-storage staging area from the configured temporary
/// storage: the first location that is a well-formed object-storage
/// address. Fails clearly when none is.
pub fn find_gs_temp_dir(temporary_storage: &TemporaryStorage) -> (r: Result<GsLocator, Error>)
    ensures
        match r {
            Ok(g) => g.wf() && exists|i: int|
                {
                    &&& 0 <= i < temporary_storage.locations@.len()
                    &&& Locator::Gs(g).render_spec()
                        == #[trigger] temporary_storage.locations@[i]@
                    &&& forall|j: int, g2: GsLocator|
                        0 <= j < i && g2.wf() ==> #[trigger] Locator::Gs(g2).render_spec()
                            != #[trigger] temporary_storage.locations@[j]@
                },
            Err(e) => {
                &&& e is NoTemporaryStorage
                &&& forall|i: int, g: GsLocator|
                    0 <= i < temporary_storage.locations@.len() && g.wf()
                        ==> #[trigger] Locator::Gs(g).render_spec()
                        != #[trigger] temporary_storage.locations@[i]@
            },
        },
{
    let mut i: usize = 0;
    while i < temporary_storage.locations.len()
        invariant
            i <= temporary_storage.locations@.len(),
            forall|j: int, g: GsLocator|
                0 <= j < i && g.wf() ==> #[trigger] Locator::Gs(g).render_spec()
                    != #[trigger] temporary_storage.locations@[j]@,
        decreases temporary_storage.locations@.len() - i,
    {
        match Locator::parse(temporary_storage.locations[i].as_str()) {
            Ok(Locator::Gs(g)) => {
                return Ok(g);
            },
            Ok(Locator::BigQuery(b)) => {
                proof {
                    assert forall|g: GsLocator| g.wf() implies #[trigger] Locator::Gs(
                        g,
                    ).render_spec() != temporary_storage.locations@[i as int]@ by {
                        if Locator::Gs(g).render_spec()
                            == temporary_storage.locations@[i as int]@ {
                            lemma_render_injective(Locator::Gs(g), Locator::BigQuery(b));
                        }
                    }
                }
            },
            Err(_) => {
                proof {
                    assert forall|g: GsLocator| g.wf() implies #[trigger] Locator::Gs(
                        g,
                    ).render_spec() != temporary_storage.locations@[i as int]@ by {}
                }
            },
        }
        i = i + 1;
    }
    Err(Error::NoTemporaryStorage)
}

/// Choose how to move a dataset from `source` to `destination`: the
/// direct path exactly when the destination's kind can consume the
/// source's kind natively, and otherwise — always — the staged path
/// through temporary storage, which fails only when no staging area is
/// configured. No pair of kinds is ever silently skipped.
pub fn plan_transfer(
    source: &Locator,
    destination: &Locator,
    temporary_storage: &TemporaryStorage,
) -> (r: Result<TransferPlan, Error>)
    ensures
        match r {
            Ok(p) => {
                &&& (p is Direct <==> supports_direct_transfer(
                    source.kind_spec(),
                    destination.kind_spec(),
                ))
                &&& (p matches TransferPlan::Staged { temp } ==> temp.wf() && exists|i: int|
                    0 <= i < temporary_storage.locations@.len() && Locator::Gs(temp).render_spec()
                        == #[trigger] temporary_storage.locations@[i]@)
            },
            Err(e) => {
                &&& !supports_direct_transfer(source.kind_spec(), destination.kind_spec())
                &&& e is NoTemporaryStorage
                &&& forall|i: int, g: GsLocator|
                    0 <= i < temporary_storage.locations@.len() && g.wf()
                        ==> #[trigger] Locator::Gs(g).render_spec()
                        != #[trigger] temporary_storage.locations@[i]@
            },
        },
{
    if destination.supports_write_remote_data(source) {
        Ok(TransferPlan::Direct)
    } else {
        match find_gs_temp_dir(temporary_storage) {
            Ok(temp) => Ok(TransferPlan::Staged { temp }),
            Err(e) => Err(e),
        }
    }
}

/// The staged-extraction plan for a warehouse source: the warehouse
/// cannot hand out local row streams itself, so the caller first runs a
/// direct transfer from the source into the staging locator (the
/// warehouse extracts natively into object storage, overwriting the
/// transfer-scoped staging area), then streams the staged data back out
/// of it.
pub struct ExtractPlan {
    /// The staging area to extract into, and then stream from.
    pub stage_to: GsLocator,
}

/// Resolve the staged-extraction plan for a warehouse source: pick the
/// staging area from temporary storage, to be overwritten by a direct
/// extract and then read back. Fails exactly when no object-storage
/// staging area is configured.
pub fn local_data_helper(source: &BigQueryLocator, temporary_storage: &TemporaryStorage) -> (r:
    Result<ExtractPlan, Error>)
    ensures
        match r {
            Ok(p) => p.stage_to.wf() && exists|i: int|
                0 <= i < temporary_storage.locations@.len() && Locator::Gs(
                    p.stage_to,
                ).render_spec() == #[trigger] temporary_storage.locations@[i]@,
            Err(e) => {
                &&& e is NoTemporaryStorage
                &&& forall|i: int, g: GsLocator|
                    0 <= i < temporary_storage.locations@.len() && g.wf()
                        ==> #[trigger] Locator::Gs(g).render_spec()
                        != #[trigger] temporary_storage.locations@[i]@
            },
        },
{
    let gs_temp = find_gs_temp_dir(temporary_storage)?;
    Ok(ExtractPlan { stage_to: gs_temp })
}

} // verus!
