//! A checkpoint with all that follows it: the database file is cut down and synced, and only then
//! the log is cut down.

use vstd::prelude::*;
use crate::bytes::be32;
use crate::checkpoint_state::{CheckpointLocks, CheckpointMode, CheckpointResult, OngoingView};
use crate::db_header::{law_header_fields_are_in_place, DatabaseHeader};
use crate::error::{CacheError, InternalFault, LimboError};
use crate::ondisk::is_page_size;
use crate::page_cache::{obstacle, PageMap};
use crate::pager::{Pager, PagerView};
use crate::pager_state::{CheckpointPhase, CommitState, IOResult, IoOutcome, IoRequest,
    PagerCheckpoint, SyncMode};
use crate::rwlock::NO_LOCK_HELD;
use crate::spill::log_page_size;
use crate::wal::WalFile;
use crate::wal_checkpoint::CheckpointStep;
use crate::wal_shared::{SharedView, WalFileShared};

verus! {

impl WalFile {
    /// Cuts the log's file down to nothing, and then has that synced: says what is to be done next.
    /// There is nothing in the log from the first step on.
    pub fn truncate_log(&self, shared: &mut WalFileShared, result: &mut CheckpointResult) -> (r:
        IOResult<()>)
        requires
            old(shared)@.enabled,
        ensures
            final(shared)@ == (SharedView { initialized: false, ..old(shared)@ }),
            if !old(result).wal_truncate_sent {
                &&& r == IOResult::<()>::IO(IoRequest::TruncateWal)
                &&& *final(result) == (CheckpointResult {
                    wal_truncate_sent: true,
                    wal_max_frame: 0,
                    wal_total_backfilled: 0,
                    ..*old(result)
                })
            } else if !old(result).wal_sync_sent {
                &&& r == IOResult::<()>::IO(IoRequest::SyncWal)
                &&& *final(result) == (CheckpointResult { wal_sync_sent: true, ..*old(result) })
            } else {
                &&& r == IOResult::<()>::Done(())
                &&& *final(result) == *old(result)
            },
    {
        let ghost before = shared@;
        shared.initialized = false;
        assert(shared@.slots =~= before.slots);
        if !result.wal_truncate_sent {
            result.wal_truncate_sent = true;
            result.wal_max_frame = 0;
            result.wal_total_backfilled = 0;
            return IOResult::IO(IoRequest::TruncateWal);
        }
        if !result.wal_sync_sent {
            result.wal_sync_sent = true;
            return IOResult::IO(IoRequest::SyncWal);
        }
        IOResult::Done(())
    }
}

/// Where a step leaves a checkpoint.
#[derive(Debug)]
pub enum PagerCheckpointStep {
    /// The next step can follow at once.
    Continue,
    /// Something has to be done outside first.
    Io(IoRequest),
    /// The checkpoint is over.
    Done(CheckpointResult),
}

/// What a checkpoint is asked to do, and what it has to know.
#[derive(Debug, Clone, Copy, PartialEq, Eq, Structural)]
pub struct CheckpointArgs {
    pub mode: CheckpointMode,
    pub sync_mode: SyncMode,
    /// Whether the cache is emptied at the end.
    pub clear_page_cache: bool,
    /// A random number, for the log's header.
    pub salt_2: u32,
    /// The size of the database file in bytes.
    pub db_file_size: u64,
}

/// What the steps of a checkpoint tell.
pub type StepResult = Result<PagerCheckpointStep, LimboError>;

/// The next step can follow at once.
pub open spec fn go_on() -> StepResult {
    Ok(PagerCheckpointStep::Continue)
}

/// The step asks for something.
pub open spec fn asks(io: IoRequest) -> StepResult {
    Ok(PagerCheckpointStep::Io(io))
}

impl PagerView {
    /// The locks that the result of a checkpoint still has, if there is one and it has any.
    pub open spec fn result_guard(self) -> Option<CheckpointLocks> {
        match self.checkpoint_state.result {
            Some(result) => result.maybe_guard,
            None => None,
        }
    }

    /// The locks that the result of a checkpoint has are held.
    pub open spec fn result_guard_held(self, s: SharedView) -> bool {
        self.result_guard() matches Some(g) ==> s.wf() && g.held(s)
    }

    /// The log after a result, if there is one, was dropped: its locks are given up.
    pub open spec fn result_dropped(self, s: SharedView) -> SharedView {
        WalFile::unguarded(self.result_guard(), s)
    }

    /// The same with a checkpoint elsewhere.
    pub open spec fn with_checkpoint(self, state: PagerCheckpoint) -> PagerView {
        PagerView { checkpoint_state: state, ..self }
    }

    /// The same with a checkpoint in another phase.
    pub open spec fn with_phase(self, phase: CheckpointPhase) -> PagerView {
        self.with_checkpoint(PagerCheckpoint { phase, ..self.checkpoint_state })
    }

    /// What the step that copies frames does.
    pub open spec fn checkpoint_copies(
        self,
        s: SharedView,
        mode: CheckpointMode,
        sync_mode: SyncMode,
        clear_page_cache: bool,
        salt_2: u32,
        v: PagerView,
        t: SharedView,
        r: StepResult,
    ) -> bool {
        exists|q: Result<CheckpointStep, LimboError>| #[trigger]
            WalFile::checkpoint_post(
                &self.wal->0,
                s,
                self.cache,
                mode,
                salt_2,
                &v.wal->0,
                t,
                q,
            ) && v.wal is Some && {
                let moved = PagerView { wal: v.wal, ..self };
                match q {
                    Err(e) => r == Err::<PagerCheckpointStep, LimboError>(e) && v == moved,
                    Ok(CheckpointStep::Continue) => r == go_on() && v == moved,
                    Ok(CheckpointStep::Io(io)) => r == asks(IoRequest::Checkpoint { io }) && v
                        == moved,
                    Ok(CheckpointStep::Done(result)) => {
                        let phase = if mode is Truncate && result.wal_max_frame
                            == result.wal_total_backfilled && result.wal_max_frame > 0 {
                            CheckpointPhase::TruncateDbFile {
                                sync_mode,
                                clear_page_cache,
                                page1_invalidated: false,
                            }
                        } else if result.wal_checkpoint_backfilled == 0 || sync_mode
                            == SyncMode::Off {
                            CheckpointPhase::Finalize { clear_page_cache }
                        } else {
                            CheckpointPhase::SyncDbFile { clear_page_cache }
                        };
                        &&& r == go_on()
                        &&& v == moved.with_checkpoint(
                            PagerCheckpoint {
                                phase,
                                result: Some(result),
                                ..self.checkpoint_state
                            },
                        )
                    },
                }
            }
    }

    /// The phase after the database file has its size: it is synced, or with syncs off the log
    /// is cut down.
    pub open spec fn after_db_truncate(sync_mode: SyncMode, clear_page_cache: bool) -> CheckpointPhase {
        if sync_mode == SyncMode::Off {
            CheckpointPhase::TruncateWalFile { clear_page_cache }
        } else {
            CheckpointPhase::SyncDbFile { clear_page_cache }
        }
    }

    /// The size that the database file is to have.
    pub open spec fn db_bytes(self) -> int {
        self.header().database_size * log_page_size(self.page_size).bytes()
    }

    /// The step that cuts the database file down, with page 1 up to date.
    pub open spec fn checkpoint_cuts_db(
        self,
        sync_mode: SyncMode,
        clear_page_cache: bool,
        db_file_size: u64,
    ) -> (PagerView, StepResult) {
        if self.page1() is None {
            (self, asks(IoRequest::ReadPage { page_no: 1 }))
        } else {
            let read = self.with_cookie();
            if self.db_bytes() >= db_file_size {
                (
                    read.with_phase(PagerView::after_db_truncate(sync_mode, clear_page_cache)),
                    go_on(),
                )
            } else {
                (
                    read.with_checkpoint(
                        PagerCheckpoint {
                            result: Some(
                                CheckpointResult {
                                    db_truncate_sent: true,
                                    ..self.checkpoint_state.result->0
                                },
                            ),
                            ..self.checkpoint_state
                        },
                    ),
                    asks(IoRequest::TruncateDb { size: self.db_bytes() as u64 }),
                )
            }
        }
    }

    /// The step that sees to the size of the database file.
    pub open spec fn checkpoint_sizes_db(
        self,
        sync_mode: SyncMode,
        clear_page_cache: bool,
        page1_invalidated: bool,
        db_file_size: u64,
    ) -> (PagerView, StepResult) {
        if self.checkpoint_state.result->0.db_truncate_sent {
            (
                self.with_phase(PagerView::after_db_truncate(sync_mode, clear_page_cache)),
                go_on(),
            )
        } else if page1_invalidated {
            self.checkpoint_cuts_db(sync_mode, clear_page_cache, db_file_size)
        } else if !self.cache.pages.contains_key(1) || obstacle(self.page(1), 1) is None {
            self.with_pages(self.cache.pages.remove(1)).with_phase(
                CheckpointPhase::TruncateDbFile {
                    sync_mode,
                    clear_page_cache,
                    page1_invalidated: true,
                },
            ).checkpoint_cuts_db(sync_mode, clear_page_cache, db_file_size)
        } else {
            (self, Err(LimboError::CacheError(obstacle(self.page(1), 1)->0)))
        }
    }

    /// The step that syncs the database file.
    pub open spec fn checkpoint_syncs_db(self, clear_page_cache: bool) -> (PagerView, StepResult) {
        if self.checkpoint_state.result->0.db_sync_sent {
            (
                self.with_phase(
                    if self.checkpoint_state.mode matches Some(CheckpointMode::Truncate { .. }) {
                        CheckpointPhase::TruncateWalFile { clear_page_cache }
                    } else {
                        CheckpointPhase::Finalize { clear_page_cache }
                    },
                ),
                go_on(),
            )
        } else {
            (
                PagerView {
                    syncing: true,
                    ..self.with_checkpoint(
                        PagerCheckpoint {
                            result: Some(
                                CheckpointResult {
                                    db_sync_sent: true,
                                    ..self.checkpoint_state.result->0
                                },
                            ),
                            ..self.checkpoint_state
                        },
                    )
                },
                asks(IoRequest::SyncDb),
            )
        }
    }

    /// The step that cuts the log down.
    pub open spec fn checkpoint_cuts_wal(self, s: SharedView, clear_page_cache: bool) -> (
        PagerView,
        SharedView,
        StepResult,
    ) {
        let result = self.checkpoint_state.result->0;
        let cut = SharedView { initialized: false, ..s };
        if !result.wal_truncate_sent {
            (
                self.with_checkpoint(
                    PagerCheckpoint {
                        result: Some(
                            CheckpointResult {
                                wal_truncate_sent: true,
                                wal_max_frame: 0,
                                wal_total_backfilled: 0,
                                ..result
                            },
                        ),
                        ..self.checkpoint_state
                    },
                ),
                cut,
                asks(IoRequest::TruncateWal),
            )
        } else if !result.wal_sync_sent {
            (
                self.with_checkpoint(
                    PagerCheckpoint {
                        result: Some(CheckpointResult { wal_sync_sent: true, ..result }),
                        ..self.checkpoint_state
                    },
                ),
                cut,
                asks(IoRequest::SyncWal),
            )
        } else {
            (self.with_phase(CheckpointPhase::Finalize { clear_page_cache }), s, go_on())
        }
    }

    /// Whether no page in the cache is dirty.
    pub open spec fn all_clean(self) -> bool {
        forall|k: usize| #[trigger]
            self.cache.pages.contains_key(k) ==> !self.cache.pages[k].dirty
    }

    /// The last step: the locks are given up, and the cache is emptied if that was asked for.
    pub open spec fn checkpoint_ends(
        self,
        s: SharedView,
        clear_page_cache: bool,
        v: PagerView,
        t: SharedView,
        r: StepResult,
    ) -> bool {
        let result = self.checkpoint_state.result->0;
        let idle = self.with_checkpoint(PagerCheckpoint::none());
        &&& t == (match result.maybe_guard {
            Some(g) => g.given_up(s),
            None => s,
        })
        &&& if clear_page_cache && !self.all_clean() {
            &&& v == idle
            &&& r matches Err(LimboError::InternalError(InternalFault::CacheClear { reason }))
                && reason matches CacheError::Dirty { page_id }
                && self.cache.pages.contains_key(page_id) && self.page(page_id).dirty
        } else {
            &&& v == (if clear_page_cache {
                idle.with_pages(PageMap::empty())
            } else {
                idle
            })
            &&& r == Ok::<PagerCheckpointStep, LimboError>(
                PagerCheckpointStep::Done(CheckpointResult { maybe_guard: None, ..result }),
            )
        }
    }

    /// A step of a checkpoint: from this pager and the log `s` to the pager `v` and the log `t`.
    pub open spec fn checkpoint_step(
        self,
        s: SharedView,
        args: CheckpointArgs,
        v: PagerView,
        t: SharedView,
        r: StepResult,
    ) -> bool {
        match self.checkpoint_state.phase {
            CheckpointPhase::NotCheckpointing => {
                &&& t == s
                &&& r == go_on()
                &&& v == self.with_checkpoint(
                    PagerCheckpoint {
                        phase: CheckpointPhase::Checkpoint {
                            mode: args.mode,
                            sync_mode: args.sync_mode,
                            clear_page_cache: args.clear_page_cache,
                        },
                        mode: Some(args.mode),
                        ..self.checkpoint_state
                    },
                )
            },
            CheckpointPhase::Checkpoint { mode, sync_mode, clear_page_cache } => {
                self.checkpoint_copies(
                    s,
                    mode,
                    sync_mode,
                    clear_page_cache,
                    args.salt_2,
                    v,
                    t,
                    r,
                )
            },
            CheckpointPhase::TruncateDbFile { sync_mode, clear_page_cache, page1_invalidated } => {
                &&& t == s
                &&& (v, r) == self.checkpoint_sizes_db(
                    sync_mode,
                    clear_page_cache,
                    page1_invalidated,
                    args.db_file_size,
                )
            },
            CheckpointPhase::SyncDbFile { clear_page_cache } => {
                &&& t == s
                &&& (v, r) == self.checkpoint_syncs_db(clear_page_cache)
            },
            CheckpointPhase::TruncateWalFile { clear_page_cache } => {
                (v, t, r) == self.checkpoint_cuts_wal(s, clear_page_cache)
            },
            CheckpointPhase::Finalize { clear_page_cache } => self.checkpoint_ends(
                s,
                clear_page_cache,
                v,
                t,
                r,
            ),
        }
    }

    /// What a step of a checkpoint needs.
    pub open spec fn can_checkpoint(self, s: SharedView) -> bool {
        let state = self.checkpoint_state;
        &&& self.wf()
        &&& self.wal is Some ==> match state.phase {
            CheckpointPhase::NotCheckpointing => true,
            CheckpointPhase::Checkpoint { mode, .. } => {
                self.wal->0.step_pre(s, self.cache, mode)
            },
            CheckpointPhase::TruncateDbFile { .. } => {
                &&& state.result is Some
                &&& state.mode matches Some(CheckpointMode::Truncate { .. })
                &&& self.header_readable()
            },
            CheckpointPhase::SyncDbFile { .. } => {
                &&& state.result is Some
                &&& state.result->0.db_sync_sent ==> !self.syncing
            },
            CheckpointPhase::TruncateWalFile { .. } => {
                &&& state.result is Some
                &&& state.mode matches Some(CheckpointMode::Truncate { .. })
                &&& s.enabled
            },
            CheckpointPhase::Finalize { .. } => {
                &&& state.result is Some
                &&& s.wf()
                &&& state.result->0.maybe_guard matches Some(g) ==> g.held(s)
            },
        }
    }
}

impl Pager {
    /// Whether a checkpoint is under way.
    pub fn is_checkpointing(&self) -> (r: bool)
        ensures
            r == (self@.checkpoint_state.phase != CheckpointPhase::NotCheckpointing),
    {
        match self.checkpoint_state.phase {
            CheckpointPhase::NotCheckpointing => false,
            _ => true,
        }
    }

    /// Drops everything about a checkpoint, after an explicit one failed. If its result has locks,
    /// they are given up.
    pub fn clear_checkpoint_state(&mut self, shared: &mut WalFileShared)
        requires
            old(self)@.wf(),
            old(self)@.result_guard_held(old(shared)@),
        ensures
            final(self)@.wf(),
            old(shared)@.wf() ==> final(shared)@.wf(),
            final(self)@ == old(self)@.with_checkpoint(PagerCheckpoint::none()),
            final(shared)@ == old(self)@.result_dropped(old(shared)@),
    {
        let ghost before = self@;
        if let Some(result) = self.checkpoint_state.result.take() {
            if let Some(guard) = result.maybe_guard {
                guard.release(shared);
            }
        }
        self.checkpoint_state = PagerCheckpoint::new();
        assert(self@.savepoints =~= before.savepoints);
    }

    /// Drops everything about a checkpoint, and lets a commit start over.
    pub fn reset_checkpoint_state(&mut self, shared: &mut WalFileShared)
        requires
            old(self)@.wf(),
            old(self)@.result_guard_held(old(shared)@),
        ensures
            final(self)@.wf(),
            old(shared)@.wf() ==> final(shared)@.wf(),
            final(self)@ == old(self)@.with_checkpoint(PagerCheckpoint::none()).with_commit_state(
                CommitState::PrepareWal,
            ),
            final(shared)@ == old(self)@.result_dropped(old(shared)@),
    {
        self.clear_checkpoint_state(shared);
        self.commit_info.state = CommitState::PrepareWal;
    }

    /// Cleans up after a checkpoint that followed a commit failed: its locks are given up.
    pub fn cleanup_after_auto_checkpoint_failure(&mut self, shared: &mut WalFileShared)
        requires
            old(self)@.wf(),
            old(shared)@.wf(),
            old(self)@.result_guard_held(old(shared)@),
            old(self)@.wal matches Some(w) ==> (w.checkpoint_guard matches Some(g) ==> g.held(
                old(self)@.result_dropped(old(shared)@),
            )),
        ensures
            final(self)@.wf(),
            final(shared)@.wf(),
            ({
                let reset = old(self)@.with_checkpoint(PagerCheckpoint::none()).with_commit_state(
                    CommitState::PrepareWal,
                );
                let dropped = old(self)@.result_dropped(old(shared)@);
                match old(self)@.wal {
                    None => final(self)@ == reset && final(shared)@ == dropped,
                    Some(wal) => {
                        &&& final(self)@.wal matches Some(w) && w == (WalFile {
                            checkpoint_guard: None,
                            max_frame_read_lock_index: NO_LOCK_HELD,
                            syncing: false,
                            ongoing_checkpoint: w.ongoing_checkpoint,
                            ..wal
                        }) && w.ongoing_checkpoint@ == OngoingView::idle()
                        &&& final(self)@ == (PagerView { wal: final(self)@.wal, ..reset })
                        &&& final(shared)@ == WalFile::unguarded(wal.checkpoint_guard, dropped)
                    },
                }
            }),
    {
        let ghost before = self@;
        self.reset_checkpoint_state(shared);
        if self.wal.is_some() {
            let mut wal = self.wal.take().unwrap();
            wal.abort_checkpoint(shared);
            self.wal = Some(wal);
            assert(self@.savepoints =~= before.savepoints);
        }
    }

    /// Notes that a sync of the database file is over.
    pub fn db_sync_finished(&mut self)
        requires
            old(self)@.wf(),
        ensures
            final(self)@.wf(),
            final(self)@ == (PagerView { syncing: false, ..old(self)@ }),
    {
        self.syncing = false;
    }

    /// Takes the next step of a checkpoint. The arguments but for the random number and the file's
    /// size count in its first step only.
    pub fn checkpoint(&mut self, shared: &mut WalFileShared, args: CheckpointArgs) -> (r: StepResult)
        requires
            old(self)@.can_checkpoint(old(shared)@),
        ensures
            final(self)@.wf(),
            old(shared)@.wf() ==> final(shared)@.wf(),
            old(self)@.wal is None ==> {
                &&& r == Err::<PagerCheckpointStep, LimboError>(
                    LimboError::InternalError(InternalFault::NoWal),
                )
                &&& final(self)@ == old(self)@
                &&& final(shared)@ == old(shared)@
            },
            old(self)@.wal is Some ==> old(self)@.checkpoint_step(
                old(shared)@,
                args,
                final(self)@,
                final(shared)@,
                r,
            ),
    {
        if self.wal.is_none() {
            return Err(LimboError::InternalError(InternalFault::NoWal));
        }
        match self.checkpoint_state.phase {
            CheckpointPhase::NotCheckpointing => {
                self.checkpoint_state.phase = CheckpointPhase::Checkpoint {
                    mode: args.mode,
                    sync_mode: args.sync_mode,
                    clear_page_cache: args.clear_page_cache,
                };
                self.checkpoint_state.mode = Some(args.mode);
                Ok(PagerCheckpointStep::Continue)
            },
            CheckpointPhase::Checkpoint { mode, sync_mode, clear_page_cache } => {
                self.checkpoint_copy(shared, mode, sync_mode, clear_page_cache, args.salt_2)
            },
            CheckpointPhase::TruncateDbFile { sync_mode, clear_page_cache, page1_invalidated } => {
                self.checkpoint_truncate_db(
                    sync_mode,
                    clear_page_cache,
                    page1_invalidated,
                    args.db_file_size,
                )
            },
            CheckpointPhase::SyncDbFile { clear_page_cache } => {
                self.checkpoint_sync_db(clear_page_cache)
            },
            CheckpointPhase::TruncateWalFile { clear_page_cache } => {
                self.checkpoint_truncate_wal(shared, clear_page_cache)
            },
            CheckpointPhase::Finalize { clear_page_cache } => {
                self.checkpoint_end(shared, clear_page_cache)
            },
        }
    }

    fn checkpoint_copy(
        &mut self,
        shared: &mut WalFileShared,
        mode: CheckpointMode,
        sync_mode: SyncMode,
        clear_page_cache: bool,
        salt_2: u32,
    ) -> (r: StepResult)
        requires
            old(self)@.wf(),
            old(self)@.wal is Some,
            old(self)@.wal->0.step_pre(old(shared)@, old(self)@.cache, mode),
        ensures
            final(self)@.wf(),
            final(shared)@.wf(),
            old(self)@.checkpoint_copies(
                old(shared)@,
                mode,
                sync_mode,
                clear_page_cache,
                salt_2,
                final(self)@,
                final(shared)@,
                r,
            ),
    {
        let ghost before = self@;
        let mut wal = self.wal.take().unwrap();
        let q = wal.checkpoint(shared, &self.page_cache, mode, salt_2);
        let ghost q0 = q;
        self.wal = Some(wal);
        assert(self@ =~= (PagerView { wal: self@.wal, ..before }));
        assert(WalFile::checkpoint_post(
            &before.wal->0,
            old(shared)@,
            before.cache,
            mode,
            salt_2,
            &self@.wal->0,
            shared@,
            q0,
        ));
        match q {
            Err(e) => {
                assert(q0 == Err::<CheckpointStep, LimboError>(e));
                Err(e)
            },
            Ok(CheckpointStep::Continue) => Ok(PagerCheckpointStep::Continue),
            Ok(CheckpointStep::Io(io)) => Ok(PagerCheckpointStep::Io(IoRequest::Checkpoint { io })),
            Ok(CheckpointStep::Done(result)) => {
                let truncates = match mode {
                    CheckpointMode::Truncate { .. } => true,
                    _ => false,
                };
                let off = match sync_mode {
                    SyncMode::Off => true,
                    _ => false,
                };
                self.checkpoint_state.phase = if truncates && result.should_truncate() {
                    CheckpointPhase::TruncateDbFile {
                        sync_mode,
                        clear_page_cache,
                        page1_invalidated: false,
                    }
                } else if result.wal_checkpoint_backfilled == 0 || off {
                    CheckpointPhase::Finalize { clear_page_cache }
                } else {
                    CheckpointPhase::SyncDbFile { clear_page_cache }
                };
                self.checkpoint_state.result = Some(result);
                Ok(PagerCheckpointStep::Continue)
            },
        }
    }

    fn checkpoint_truncate_db(
        &mut self,
        sync_mode: SyncMode,
        clear_page_cache: bool,
        page1_invalidated: bool,
        db_file_size: u64,
    ) -> (r: StepResult)
        requires
            old(self)@.wf(),
            old(self)@.checkpoint_state.result is Some,
            old(self)@.header_readable(),
        ensures
            final(self)@.wf(),
            (final(self)@, r) == old(self)@.checkpoint_sizes_db(
                sync_mode,
                clear_page_cache,
                page1_invalidated,
                db_file_size,
            ),
    {
        let ghost before = self@;
        let next = match sync_mode {
            SyncMode::Off => CheckpointPhase::TruncateWalFile { clear_page_cache },
            _ => CheckpointPhase::SyncDbFile { clear_page_cache },
        };
        if self.checkpoint_state.result.as_ref().unwrap().db_truncate_sent {
            self.checkpoint_state.phase = next;
            return Ok(PagerCheckpointStep::Continue);
        }
        if !page1_invalidated {
            match self.page_cache.delete(1) {
                Err(e) => {
                    assert(self@ =~= before);
                    return Err(LimboError::CacheError(e));
                },
                Ok(()) => {},
            }
            self.checkpoint_state.phase = CheckpointPhase::TruncateDbFile {
                sync_mode,
                clear_page_cache,
                page1_invalidated: true,
            };
            assert(self@ =~= before.with_pages(before.cache.pages.remove(1)).with_phase(
                self@.checkpoint_state.phase,
            ));
            assert(self@.page1() is Some ==> before.page1() == self@.page1());
        }
        let ghost v = self@;
        let db_size: u32 = match self.with_header() {
            IOResult::IO(io) => {
                return Ok(PagerCheckpointStep::Io(io));
            },
            IOResult::Done(header) => header.database_size,
        };
        let page_size: u32 = self.page_size_or_default().get();
        assert(db_size * page_size <= u32::MAX * u32::MAX) by (nonlinear_arith)
            requires
                db_size <= u32::MAX,
                page_size <= u32::MAX,
        ;
        let expected: u64 = db_size as u64 * page_size as u64;
        if expected >= db_file_size {
            self.checkpoint_state.phase = next;
            return Ok(PagerCheckpointStep::Continue);
        }
        let mut result = self.checkpoint_state.result.take().unwrap();
        result.db_truncate_sent = true;
        self.checkpoint_state.result = Some(result);
        assert(self@.savepoints =~= v.savepoints);
        Ok(PagerCheckpointStep::Io(IoRequest::TruncateDb { size: expected }))
    }

    fn checkpoint_sync_db(&mut self, clear_page_cache: bool) -> (r: StepResult)
        requires
            old(self)@.wf(),
            old(self)@.checkpoint_state.result is Some,
        ensures
            final(self)@.wf(),
            (final(self)@, r) == old(self)@.checkpoint_syncs_db(clear_page_cache),
    {
        let ghost before = self@;
        if self.checkpoint_state.result.as_ref().unwrap().db_sync_sent {
            self.checkpoint_state.phase = match self.checkpoint_state.mode {
                Some(CheckpointMode::Truncate { .. }) => CheckpointPhase::TruncateWalFile {
                    clear_page_cache,
                },
                _ => CheckpointPhase::Finalize { clear_page_cache },
            };
            return Ok(PagerCheckpointStep::Continue);
        }
        let mut result = self.checkpoint_state.result.take().unwrap();
        result.db_sync_sent = true;
        self.checkpoint_state.result = Some(result);
        self.syncing = true;
        assert(self@.savepoints =~= before.savepoints);
        Ok(PagerCheckpointStep::Io(IoRequest::SyncDb))
    }

    fn checkpoint_truncate_wal(&mut self, shared: &mut WalFileShared, clear_page_cache: bool) -> (r:
        StepResult)
        requires
            old(self)@.wf(),
            old(self)@.wal is Some,
            old(self)@.checkpoint_state.result is Some,
            old(shared)@.enabled,
        ensures
            final(self)@.wf(),
            old(shared)@.wf() ==> final(shared)@.wf(),
            (final(self)@, final(shared)@, r) == old(self)@.checkpoint_cuts_wal(
                old(shared)@,
                clear_page_cache,
            ),
    {
        let ghost before = self@;
        let need = {
            let result = self.checkpoint_state.result.as_ref().unwrap();
            !result.wal_truncate_sent || !result.wal_sync_sent
        };
        if !need {
            self.checkpoint_state.phase = CheckpointPhase::Finalize { clear_page_cache };
            return Ok(PagerCheckpointStep::Continue);
        }
        let mut result = self.checkpoint_state.result.take().unwrap();
        let io = match &self.wal {
            Some(wal) => wal.truncate_log(shared, &mut result),
            None => IOResult::Done(()),
        };
        self.checkpoint_state.result = Some(result);
        assert(self@.savepoints =~= before.savepoints);
        match io {
            IOResult::IO(io) => Ok(PagerCheckpointStep::Io(io)),
            IOResult::Done(()) => Ok(PagerCheckpointStep::Continue),
        }
    }

    fn checkpoint_end(&mut self, shared: &mut WalFileShared, clear_page_cache: bool) -> (r:
        StepResult)
        requires
            old(self)@.wf(),
            old(self)@.checkpoint_state.result is Some,
            old(shared)@.wf(),
            old(self)@.checkpoint_state.result->0.maybe_guard matches Some(g) ==> g.held(
                old(shared)@,
            ),
        ensures
            final(self)@.wf(),
            final(shared)@.wf(),
            old(self)@.checkpoint_ends(
                old(shared)@,
                clear_page_cache,
                final(self)@,
                final(shared)@,
                r,
            ),
    {
        let ghost before = self@;
        let mut result = self.checkpoint_state.result.take().unwrap();
        self.checkpoint_state.phase = CheckpointPhase::NotCheckpointing;
        self.checkpoint_state.mode = None;
        assert(self@ =~= before.with_checkpoint(PagerCheckpoint::none()));
        result.release_guard(shared);
        if clear_page_cache {
            if let Err(reason) = self.page_cache.clear(false) {
                return Err(LimboError::InternalError(InternalFault::CacheClear { reason }));
            }
            assert(self@ =~= before.with_checkpoint(PagerCheckpoint::none()).with_pages(
                PageMap::empty(),
            ));
        }
        Ok(PagerCheckpointStep::Done(result))
    }
}

/// The log's file is cut down only after the database file was synced, or with syncs off: no step
/// but one of its own phase asks for it, and that phase is entered from a finished sync of the
/// database file, or past it if syncs are off.
pub proof fn law_log_is_cut_after_sync(
    v: PagerView,
    s: SharedView,
    args: CheckpointArgs,
    w: PagerView,
    t: SharedView,
    r: StepResult,
)
    requires
        v.can_checkpoint(s),
        v.wal is Some,
        v.checkpoint_step(s, args, w, t, r),
    ensures
        r == asks(IoRequest::TruncateWal) ==> v.checkpoint_state.phase is TruncateWalFile,
        w.checkpoint_state.phase is TruncateWalFile && !(v.checkpoint_state.phase is TruncateWalFile)
            ==> {
            ||| v.checkpoint_state.phase is SyncDbFile && v.checkpoint_state.result->0.db_sync_sent
                && !v.syncing
            ||| v.checkpoint_state.phase matches CheckpointPhase::TruncateDbFile {
                sync_mode,
                ..
            } && sync_mode == SyncMode::Off
        },
{
}

/// A checkpoint never cuts off a page of the database: it has the database file cut down only to
/// the size that page 1 gives for the database, in pages, times the page size, which is 4096 while
/// none is known, and only if the file is longer. Every page of the database is then still in the
/// file. A file that is longer is not passed over.
pub proof fn law_checkpoint_cuts_off_no_page(
    v: PagerView,
    s: SharedView,
    args: CheckpointArgs,
    w: PagerView,
    t: SharedView,
    r: StepResult,
    size: u64,
    page: int,
)
    requires
        v.wal is Some,
        v.can_checkpoint(s),
        v.checkpoint_step(s, args, w, t, r),
    ensures
        ({
            let pages = be32(w.page1()->0.data(), 28);
            let page_size = if is_page_size(v.page_size as int) {
                v.page_size as int
            } else {
                4096
            };
            &&& r == asks(IoRequest::TruncateDb { size }) ==> {
                &&& v.checkpoint_state.phase is TruncateDbFile
                &&& w.page1() is Some
                &&& size == pages * page_size
                &&& size < args.db_file_size
                &&& 1 <= page <= pages ==> page * page_size <= size
            }
            &&& v.checkpoint_state.phase is TruncateDbFile && !(w.checkpoint_state.phase is TruncateDbFile)
                ==> v.checkpoint_state.result->0.db_truncate_sent || (w.page1() is Some && pages
                * page_size >= args.db_file_size)
        }),
{
    let phase = v.checkpoint_state.phase;
    if phase is TruncateDbFile && !v.checkpoint_state.result->0.db_truncate_sent && w.page1()
        is Some {
        let data = w.page1()->0.data();
        lemma_page1_of_cut(v, s, args, w, t, r);
        law_header_fields_are_in_place(data);
        let pages = be32(data, 28);
        let bytes = log_page_size(v.page_size).bytes();
        assert(0 <= pages * bytes <= u64::MAX) by (nonlinear_arith)
            requires
                0 <= pages <= u32::MAX,
                0 <= bytes <= u32::MAX,
        ;
        if 1 <= page <= pages {
            assert(page * bytes <= pages * bytes) by (nonlinear_arith)
                requires
                    page <= pages,
                    0 <= bytes,
            ;
        }
    }
}

/// The database file is not cut down by a page 1 that was in the cache before: it is dropped first,
/// and read anew.
pub proof fn law_cut_goes_by_fresh_page1(
    v: PagerView,
    s: SharedView,
    args: CheckpointArgs,
    w: PagerView,
    t: SharedView,
    r: StepResult,
)
    requires
        v.wal is Some,
        v.can_checkpoint(s),
        v.checkpoint_step(s, args, w, t, r),
        v.init_page_1 is None,
        v.checkpoint_state.phase matches CheckpointPhase::TruncateDbFile {
            page1_invalidated: false,
            ..
        },
        !v.checkpoint_state.result->0.db_truncate_sent,
    ensures
        r is Ok ==> r == asks(IoRequest::ReadPage { page_no: 1 }) && !w.cache.pages.contains_key(1),
        r is Ok ==> (w.checkpoint_state.phase matches CheckpointPhase::TruncateDbFile {
            page1_invalidated: true,
            ..
        }),
        r is Err <==> v.cache.pages.contains_key(1) && (v.page(1).locked || v.page(1).dirty
            || v.page(1).pin_count > 0),
        r is Err ==> w == v,
{
}

/// The page 1 that a cut goes by is the one that is there afterwards.
proof fn lemma_page1_of_cut(
    v: PagerView,
    s: SharedView,
    args: CheckpointArgs,
    w: PagerView,
    t: SharedView,
    r: StepResult,
)
    requires
        v.wal is Some,
        v.can_checkpoint(s),
        v.checkpoint_step(s, args, w, t, r),
        v.checkpoint_state.phase is TruncateDbFile,
        !v.checkpoint_state.result->0.db_truncate_sent,
        w.page1() is Some,
    ensures
        w.page1()->0.data().len() >= 100,
        0 <= be32(w.page1()->0.data(), 28) <= u32::MAX,
        log_page_size(v.page_size).bytes() == (if is_page_size(v.page_size as int) {
            v.page_size as int
        } else {
            4096
        }),
        w.header() == DatabaseHeader::decoded(w.page1()->0.data()),
{
}

/// Files are cut down only by a checkpoint that was asked to, and only once it has copied the whole
/// log.
pub proof fn law_files_are_cut_only_when_all_is_copied(
    v: PagerView,
    s: SharedView,
    args: CheckpointArgs,
    w: PagerView,
    t: SharedView,
    r: StepResult,
)
    requires
        v.wal is Some,
        v.can_checkpoint(s),
        v.checkpoint_step(s, args, w, t, r),
    ensures
        w.checkpoint_state.phase is TruncateDbFile && !(v.checkpoint_state.phase is TruncateDbFile)
            ==> {
            &&& v.checkpoint_state.phase matches CheckpointPhase::Checkpoint { mode, .. } && mode
                is Truncate
            &&& w.checkpoint_state.result matches Some(result) && result.wal_max_frame
                == result.wal_total_backfilled && result.wal_max_frame > 0
        },
        w.checkpoint_state.phase is TruncateWalFile && !(v.checkpoint_state.phase
            is TruncateWalFile) ==> (v.checkpoint_state.mode matches Some(mode) && mode is Truncate),
        r == asks(IoRequest::TruncateWal) ==> (v.checkpoint_state.mode matches Some(mode) && mode
            is Truncate),
{
}

/// A checkpoint that has copied frames ends only after the database file was synced, unless syncs
/// are off.
pub proof fn law_copied_frames_are_synced(
    v: PagerView,
    s: SharedView,
    args: CheckpointArgs,
    w: PagerView,
    t: SharedView,
    r: StepResult,
)
    requires
        v.wal is Some,
        v.can_checkpoint(s),
        v.checkpoint_step(s, args, w, t, r),
    ensures
        w.checkpoint_state.phase is Finalize && v.checkpoint_state.phase is Checkpoint ==> {
            ||| w.checkpoint_state.result matches Some(result) && result.wal_checkpoint_backfilled
                == 0
            ||| v.checkpoint_state.phase matches CheckpointPhase::Checkpoint { sync_mode, .. }
                && sync_mode == SyncMode::Off
        },
        w.checkpoint_state.phase is Finalize && v.checkpoint_state.phase is SyncDbFile
            ==> v.checkpoint_state.result->0.db_sync_sent && !v.syncing,
        r matches Ok(PagerCheckpointStep::Done(_)) ==> v.checkpoint_state.phase is Finalize
            && w.checkpoint_state.phase is NotCheckpointing,
{
}

/// A checkpoint that cuts files down goes all the way: the database file, its sync unless syncs are
/// off, the log's file, the log's sync, and only then the end.
pub proof fn law_cutting_checkpoint_goes_all_the_way(
    v: PagerView,
    s: SharedView,
    args: CheckpointArgs,
    w: PagerView,
    t: SharedView,
    r: StepResult,
)
    requires
        v.wal is Some,
        v.can_checkpoint(s),
        v.checkpoint_step(s, args, w, t, r),
    ensures
        v.checkpoint_state.phase is TruncateDbFile && !(w.checkpoint_state.phase is TruncateDbFile)
            ==> (if v.checkpoint_state.phase->TruncateDbFile_sync_mode == SyncMode::Off {
            w.checkpoint_state.phase is TruncateWalFile
        } else {
            w.checkpoint_state.phase is SyncDbFile
        }),
        v.checkpoint_state.phase is SyncDbFile && !(w.checkpoint_state.phase is SyncDbFile)
            ==> (w.checkpoint_state.phase is TruncateWalFile) == (v.checkpoint_state.mode
            matches Some(CheckpointMode::Truncate { .. })) && (w.checkpoint_state.phase
            is TruncateWalFile || w.checkpoint_state.phase is Finalize),
        v.checkpoint_state.phase is SyncDbFile && !v.checkpoint_state.result->0.db_sync_sent
            ==> r == asks(IoRequest::SyncDb) && w.checkpoint_state.result->0.db_sync_sent,
        v.checkpoint_state.phase is TruncateWalFile ==> {
            let before = v.checkpoint_state.result->0;
            let after = w.checkpoint_state.result->0;
            &&& !before.wal_truncate_sent ==> r == asks(IoRequest::TruncateWal)
                && after.wal_truncate_sent && !t.initialized
            &&& before.wal_truncate_sent && !before.wal_sync_sent ==> r == asks(IoRequest::SyncWal)
                && after.wal_sync_sent && !t.initialized
            &&& w.checkpoint_state.phase is Finalize ==> before.wal_truncate_sent
                && before.wal_sync_sent
        },
{
}

/// The end of a checkpoint gives up its locks, and empties the cache just if that was asked for;
/// a page with changes keeps that from happening.
pub proof fn law_end_of_checkpoint(
    v: PagerView,
    s: SharedView,
    args: CheckpointArgs,
    w: PagerView,
    t: SharedView,
    r: StepResult,
    id: usize,
)
    requires
        v.wal is Some,
        v.can_checkpoint(s),
        v.checkpoint_step(s, args, w, t, r),
        v.checkpoint_state.phase is Finalize,
    ensures
        w.checkpoint_state.phase is NotCheckpointing,
        w.checkpoint_state.result is None,
        v.checkpoint_state.result->0.maybe_guard is Some ==> !t.checkpoint_lock.writer
            && !t.slots[0].writer,
        r is Ok && v.checkpoint_state.phase->Finalize_clear_page_cache ==> w.cache.pages
            == PageMap::empty(),
        r is Ok && v.checkpoint_state.phase->Finalize_clear_page_cache
            && v.cache.pages.contains_key(id) ==> !v.page(id).dirty,
        r is Err || !v.checkpoint_state.phase->Finalize_clear_page_cache ==> w.cache == v.cache,
        r is Err ==> v.checkpoint_state.phase->Finalize_clear_page_cache,
        w.dirty == v.dirty,
        t.max_frame == s.max_frame && t.nbackfills == s.nbackfills && t.frames == s.frames,
{
}

/// What a shutdown has come to.
#[derive(Debug, Clone, Copy, PartialEq, Eq, Structural)]
pub enum ShutdownProgress {
    /// Nothing was done yet.
    Started,
    /// The log's sync was asked for.
    Synced(IoOutcome),
    /// A checkpoint was tried after so many others; whether something was in its way.
    Tried { attempts: u32, busy: bool },
}

/// What a shutdown does next.
#[derive(Debug, Clone, Copy, PartialEq, Eq, Structural)]
pub enum ShutdownStep {
    /// The log is to be synced.
    SyncWal,
    /// The sync is not over yet.
    Wait,
    /// A checkpoint that cuts the log down is to be tried, after so many others.
    Checkpoint { attempts: u32 },
    /// It is over, whether or not a checkpoint worked.
    Done,
}

impl Pager {
    /// Decides the next step of shutting down the last connection to a database: the log is synced,
    /// then copied and cut down. That is tried four times while something is in the way.
    pub fn checkpoint_shutdown(
        &mut self,
        wal_auto_checkpoint_disabled: bool,
        progress: ShutdownProgress,
    ) -> (r: Result<ShutdownStep, LimboError>)
        requires
            old(self)@.wf(),
            progress matches ShutdownProgress::Tried { attempts, .. } ==> attempts <= 3,
        ensures
            final(self)@.wf(),
            match old(self)@.wal {
                None => {
                    &&& r == Err::<ShutdownStep, LimboError>(
                        LimboError::InternalError(InternalFault::NoWal),
                    )
                    &&& final(self)@ == old(self)@
                },
                Some(wal) => match progress {
                    ShutdownProgress::Started => {
                        &&& r == Ok::<ShutdownStep, LimboError>(ShutdownStep::SyncWal)
                        &&& final(self)@ == (PagerView {
                            wal: Some(WalFile { syncing: true, ..wal }),
                            ..old(self)@
                        })
                    },
                    ShutdownProgress::Synced(IoOutcome::Pending) => {
                        &&& r == Ok::<ShutdownStep, LimboError>(ShutdownStep::Wait)
                        &&& final(self)@ == old(self)@
                    },
                    ShutdownProgress::Synced(outcome) => {
                        &&& final(self)@ == (PagerView {
                            wal: Some(WalFile { syncing: false, ..wal }),
                            ..old(self)@
                        })
                        &&& r == (match outcome {
                            IoOutcome::Failed(e) => Err::<ShutdownStep, LimboError>(
                                LimboError::CompletionError(e),
                            ),
                            _ => Ok::<ShutdownStep, LimboError>(
                                if wal_auto_checkpoint_disabled {
                                    ShutdownStep::Done
                                } else {
                                    ShutdownStep::Checkpoint { attempts: 0 }
                                },
                            ),
                        })
                    },
                    ShutdownProgress::Tried { attempts, busy } => {
                        &&& final(self)@ == old(self)@
                        &&& r == Ok::<ShutdownStep, LimboError>(
                            if busy && attempts < 3 {
                                ShutdownStep::Checkpoint { attempts: (attempts + 1) as u32 }
                            } else {
                                ShutdownStep::Done
                            },
                        )
                    },
                },
            },
    {
        let ghost before = self@;
        if self.wal.is_none() {
            return Err(LimboError::InternalError(InternalFault::NoWal));
        }
        match progress {
            ShutdownProgress::Started => {
                let mut wal = self.wal.take().unwrap();
                wal.sync();
                self.wal = Some(wal);
                assert(self@.savepoints =~= before.savepoints);
                Ok(ShutdownStep::SyncWal)
            },
            ShutdownProgress::Synced(IoOutcome::Pending) => Ok(ShutdownStep::Wait),
            ShutdownProgress::Synced(outcome) => {
                let mut wal = self.wal.take().unwrap();
                wal.sync_finished();
                self.wal = Some(wal);
                assert(self@.savepoints =~= before.savepoints);
                if let IoOutcome::Failed(e) = outcome {
                    return Err(LimboError::CompletionError(e));
                }
                if wal_auto_checkpoint_disabled {
                    Ok(ShutdownStep::Done)
                } else {
                    Ok(ShutdownStep::Checkpoint { attempts: 0 })
                }
            },
            ShutdownProgress::Tried { attempts, busy } => {
                if busy && attempts < 3 {
                    Ok(ShutdownStep::Checkpoint { attempts: attempts + 1 })
                } else {
                    Ok(ShutdownStep::Done)
                }
            },
        }
    }
}

} // verus!
