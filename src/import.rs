//! The steps of an import. The mesh engine's calls (creating the mesh,
//! allocating and registering each tile) are made by the caller; this state
//! machine says which call comes next and what each answer leads to.
use vstd::prelude::*;
use crate::geom::STATUS_SUCCESS;
use crate::tileset::{ImportError, MeshParams, TileRecord, TileSet};

verus! {

/// Where an import stands.
#[derive(Clone, Copy, Debug, PartialEq, Eq, Structural)]
pub enum ImportPhase {
    /// The empty mesh has yet to be created from the parameters.
    Initializing,
    /// The tile at index `registered` is the next to register.
    Registering,
    /// Every tile record was registered.
    Finished,
    /// The import stopped; nothing of the mesh may be kept.
    Failed(ImportError),
}

/// The next thing the caller must do.
#[derive(Clone, Copy, Debug, PartialEq, Eq, Structural)]
pub enum ImportAction {
    /// Create an empty mesh with these parameters.
    InitMesh(MeshParams),
    /// Allocate a buffer for this tile's payload, copy it and register it.
    AddTile(TileRecord),
    /// The mesh is complete, with this many tiles.
    Complete(usize),
    /// Discard the mesh and report this error.
    Abort(ImportError),
}

/// Phase and number of registered tiles after the engine answered the
/// creation of the empty mesh.
pub open spec fn init_step(status: u32, total: nat) -> (ImportPhase, nat) {
    if status != STATUS_SUCCESS {
        (ImportPhase::Failed(ImportError::InitializationError), 0)
    } else if total == 0 {
        (ImportPhase::Finished, 0)
    } else {
        (ImportPhase::Registering, 0)
    }
}

/// Phase and number of registered tiles after the tile at index
/// `registered` was allocated (or not) and handed to the engine.
pub open spec fn tile_step(registered: nat, total: nat, allocated: bool, status: u32) -> (ImportPhase, nat) {
    if !allocated {
        (ImportPhase::Failed(ImportError::AllocationError), registered)
    } else if status != STATUS_SUCCESS {
        (ImportPhase::Failed(ImportError::TileRegistrationError), registered)
    } else if registered + 1 == total {
        (ImportPhase::Finished, total)
    } else {
        (ImportPhase::Registering, registered + 1)
    }
}

/// The state after `n` tiles in a row were allocated and accepted, starting
/// from index `registered`.
pub open spec fn accepted_run(registered: nat, total: nat, n: nat) -> (ImportPhase, nat)
    decreases n,
{
    if n == 0 {
        (ImportPhase::Registering, registered)
    } else {
        let (phase, next) = tile_step(registered, total, true, STATUS_SUCCESS);
        if phase == ImportPhase::Registering {
            accepted_run(next, total, (n - 1) as nat)
        } else {
            (phase, next)
        }
    }
}

/// An import of a decoded tile set.
pub struct Importer {
    pub params: MeshParams,
    pub tiles: Vec<TileRecord>,
    pub phase: ImportPhase,
    pub registered: usize,
}

impl Importer {
    pub open spec fn wf(&self) -> bool {
        &&& self.registered <= self.tiles@.len()
        &&& self.phase == ImportPhase::Registering ==> self.registered < self.tiles@.len()
        &&& self.phase == ImportPhase::Finished ==> self.registered == self.tiles@.len()
        &&& self.phase == ImportPhase::Initializing ==> self.registered == 0
    }

    /// Starts the import of a decoded tile set.
    pub fn new(set: TileSet) -> (r: Importer)
        ensures
            r.wf(),
            r.params == set.params,
            r.tiles@ == set.tiles@,
            r.phase == ImportPhase::Initializing,
            r.registered == 0,
    {
        Importer { params: set.params, tiles: set.tiles, phase: ImportPhase::Initializing, registered: 0 }
    }

    /// The next step the caller must carry out.
    pub fn next_action(&self) -> (r: ImportAction)
        requires
            self.wf(),
        ensures
            r == match self.phase {
                ImportPhase::Initializing => ImportAction::InitMesh(self.params),
                ImportPhase::Registering => ImportAction::AddTile(self.tiles@[self.registered as int]),
                ImportPhase::Finished => ImportAction::Complete(self.registered),
                ImportPhase::Failed(e) => ImportAction::Abort(e),
            },
    {
        match self.phase {
            ImportPhase::Initializing => ImportAction::InitMesh(self.params),
            ImportPhase::Registering => ImportAction::AddTile(self.tiles[self.registered]),
            ImportPhase::Finished => ImportAction::Complete(self.registered),
            ImportPhase::Failed(e) => ImportAction::Abort(e),
        }
    }

    /// Takes the engine's answer to the creation of the empty mesh.
    pub fn on_mesh_created(&mut self, status: u32)
        requires
            old(self).wf(),
            old(self).phase == ImportPhase::Initializing,
        ensures
            final(self).wf(),
            final(self).params == old(self).params,
            final(self).tiles@ == old(self).tiles@,
            (final(self).phase, final(self).registered as nat) == init_step(status, old(self).tiles@.len()),
    {
        if status != STATUS_SUCCESS {
            self.phase = ImportPhase::Failed(ImportError::InitializationError);
        } else if self.tiles.len() == 0 {
            self.phase = ImportPhase::Finished;
        } else {
            self.phase = ImportPhase::Registering;
        }
    }

    /// Takes the outcome of registering the next tile: whether its buffer
    /// could be allocated, and the engine's status for adding it.
    pub fn on_tile_added(&mut self, allocated: bool, status: u32)
        requires
            old(self).wf(),
            old(self).phase == ImportPhase::Registering,
        ensures
            final(self).wf(),
            final(self).params == old(self).params,
            final(self).tiles@ == old(self).tiles@,
            (final(self).phase, final(self).registered as nat) == tile_step(
                old(self).registered as nat,
                old(self).tiles@.len(),
                allocated,
                status,
            ),
    {
        if !allocated {
            self.phase = ImportPhase::Failed(ImportError::AllocationError);
        } else if status != STATUS_SUCCESS {
            self.phase = ImportPhase::Failed(ImportError::TileRegistrationError);
        } else {
            let total = self.tiles.len();
            self.registered = self.registered + 1;
            if self.registered == total {
                self.phase = ImportPhase::Finished;
            } else {
                self.phase = ImportPhase::Registering;
            }
        }
    }
}

/// An import whose mesh was created and whose tiles were all allocated and
/// accepted ends with every tile record registered: a tile set of `total`
/// records gives a mesh of exactly `total` tiles.
pub proof fn lemma_accepted_import_registers_all(total: nat)
    ensures
        total == 0 ==> init_step(STATUS_SUCCESS, total) == (ImportPhase::Finished, 0nat),
        total > 0 ==> init_step(STATUS_SUCCESS, total) == (ImportPhase::Registering, 0nat)
            && accepted_run(0, total, total) == (ImportPhase::Finished, total),
{
    if total > 0 {
        lemma_accepted_run(0, total, total);
    }
}

proof fn lemma_accepted_run(registered: nat, total: nat, n: nat)
    requires
        registered < total,
        registered + n == total,
    ensures
        accepted_run(registered, total, n) == (ImportPhase::Finished, total),
    decreases n,
{
    if registered + 1 < total {
        lemma_accepted_run(registered + 1, total, (n - 1) as nat);
    }
}

} // verus!
