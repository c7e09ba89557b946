//! Transactions, as the pager sees them.

use vstd::prelude::*;
use crate::checkpoint_state::{CheckpointLocks, OngoingView};
use crate::error::{BadArgument, InternalFault, LimboError};
use crate::frame_index::rolled_back;
use crate::ondisk::is_page_size;
use crate::page::PageView;
use crate::page_cache::PageMap;
use crate::pager::{Pager, PagerView, SCHEMA_COOKIE_NOT_SET};
use crate::pager_state::{AllocatePage1State, AllocatePageState, FreePageState, IOResult, IoRequest,
    PagerCheckpoint, SpillState, VacuumState};
use crate::rwlock::NO_LOCK_HELD;
use crate::savepoint::JournalView;
use crate::spill::unpinned;
use crate::wal::{BeginRead, Snapshot, WalFile};
use crate::wal_append::FrameMeta;
use crate::wal_format::{frame_position, WalFrameHeader, WAL_FRAME_HEADER_SIZE};
use crate::wal_shared::{SharedView, WalFileShared, READ_SLOTS};

verus! {

/// What a connection knows of the log.
#[derive(Debug, Clone, Copy, PartialEq, Eq, Structural)]
pub struct WalState {
    pub checkpoint_seq_no: u32,
    pub max_frame: u64,
}

/// What a raw frame is about.
#[derive(Debug, Clone, Copy, PartialEq, Eq, Structural)]
pub struct WalFrameInfo {
    pub page_no: u32,
    pub db_size: u32,
}

/// The pages after the pins of those of the list were taken away.
pub open spec fn all_unpinned(pages: PageMap, list: Seq<usize>) -> PageMap
    decreases list.len(),
{
    if list.len() == 0 {
        pages
    } else {
        let before = all_unpinned(pages, list.drop_last());
        let id = list.last();
        if before.contains_key(id) {
            before.insert(id, unpinned(before[id]))
        } else {
            before
        }
    }
}

/// The pages that a spill under way has pinned.
pub open spec fn pinned_by(state: SpillState) -> Seq<usize> {
    match state {
        SpillState::WritingToWal { frames, .. } => Seq::new(
            frames@.len(),
            |i: int| frames@[i].page_id as usize,
        ),
        SpillState::WritingToDisk { pages } => pages@,
        _ => Seq::empty(),
    }
}

impl PagerView {
    /// Every dirty page in the cache is known to be dirty.
    pub open spec fn dirty_known(self) -> bool {
        forall|k: usize| #[trigger]
            self.cache.pages.contains_key(k) && self.cache.pages[k].dirty ==> k <= u32::MAX
                && self.dirty.contains(k as u32)
    }

    /// The pager after the cache was emptied.
    pub open spec fn emptied(self, clear_dirty: bool) -> PagerView {
        PagerView {
            dirty: if clear_dirty {
                Set::empty()
            } else {
                self.dirty
            },
            ..self.with_pages(PageMap::empty())
        }
    }

    /// The pager after the cache was emptied because somebody else changed the database.
    pub open spec fn outdated(self) -> PagerView {
        PagerView { schema_cookie: SCHEMA_COOKIE_NOT_SET, ..self.emptied(false) }
    }

    /// The beginning of a write transaction, with page 1 on disk: from this pager and the log `s` to
    /// the pager `v` and the log `t`.
    pub open spec fn writer_begun(
        self,
        s: SharedView,
        salt_2: u32,
        v: PagerView,
        t: SharedView,
        r: Result<IOResult<()>, LimboError>,
    ) -> bool {
        match self.wal {
            None => {
                &&& r == Ok::<IOResult<()>, LimboError>(IOResult::Done(()))
                &&& v == self
                &&& t == s
            },
            Some(wal) => if !s.write_lock.free() {
                &&& r == Err::<IOResult<()>, LimboError>(LimboError::Busy)
                &&& v == self
                &&& t == s
            } else if wal.sees_change(s) {
                &&& r == Err::<IOResult<()>, LimboError>(LimboError::BusySnapshot)
                &&& v == self
                &&& t == s
            } else {
                let base = if wal.restart_works(s) {
                    wal.after_restart(s)
                } else {
                    wal
                };
                &&& r == Ok::<IOResult<()>, LimboError>(IOResult::Done(()))
                &&& v == (PagerView {
                    wal: Some(WalFile { write_lock_held: true, ..base }),
                    ..self
                })
                &&& t == wal.restart_before_write(
                    SharedView { write_lock: s.write_lock.add_writer(), ..s },
                    salt_2,
                )
            },
        }
    }

    /// What a rollback of a transaction goes on from: a writer's savepoint is closed first.
    pub open spec fn rollback_base(self, is_write: bool) -> PagerView {
        if is_write {
            self.without_savepoints()
        } else {
            self
        }
    }

    /// `v` is the pager with nothing under way.
    pub open spec fn states_reset(self, v: PagerView) -> bool {
        &&& v.commit_info.idle()
        &&& v == (PagerView {
            checkpoint_state: PagerCheckpoint::none(),
            syncing: false,
            commit_info: v.commit_info,
            allocate_page_state: AllocatePageState::Start,
            free_page_state: FreePageState::Start,
            spill_state: SpillState::Idle,
            vacuum_state: VacuumState::idle(),
            ..self.with_pages(all_unpinned(self.cache.pages, pinned_by(self.spill_state)))
        })
    }

    /// What a rollback needs: in a read transaction nothing is dirty.
    pub open spec fn can_roll_back(self, is_write: bool) -> bool {
        &&& self.wf()
        &&& !is_write ==> self.dirty.is_empty()
    }

    /// The pager without what a writer changed.
    pub open spec fn without_changes(self, is_write: bool) -> PagerView {
        if is_write {
            self.emptied(true)
        } else {
            self
        }
    }

    /// A rollback: from this pager and the log `s` to the pager `v` and the log `t`.
    pub open spec fn rolled_back(
        self,
        s: SharedView,
        is_write: bool,
        v: PagerView,
        t: SharedView,
    ) -> bool {
        exists|reset: PagerView| #[trigger]
            self.without_changes(is_write).states_reset(reset) && {
                let forgot = PagerView { schema_cookie: SCHEMA_COOKIE_NOT_SET, ..reset };
                let dropped = self.result_dropped(s);
                match self.wal {
                    Some(wal) if is_write => {
                        &&& v.wal matches Some(w) && w == (WalFile {
                            max_frame: s.max_frame,
                            last_checksum: s.last_checksum,
                            max_frame_read_lock_index: NO_LOCK_HELD,
                            syncing: false,
                            ongoing_checkpoint: w.ongoing_checkpoint,
                            ..wal
                        }) && w.ongoing_checkpoint@ == OngoingView::idle()
                        &&& v == (PagerView { wal: v.wal, ..forgot })
                        &&& t == (SharedView {
                            frames: rolled_back(s.frames, s.max_frame),
                            ..dropped
                        })
                    },
                    _ => v == forgot && t == dropped,
                }
            }
    }
}

impl Pager {
    /// Empties the cache. Pages with changes that are not known to be dirty must not be in it,
    /// unless dirty pages are dropped too.
    pub fn clear_page_cache(&mut self, clear_dirty: bool)
        requires
            old(self)@.wf(),
            clear_dirty || old(self)@.dirty_known(),
        ensures
            final(self)@.wf(),
            final(self)@ == old(self)@.emptied(clear_dirty),
    {
        let ghost before = self@;
        let _ = self.page_cache.clear(true);
        if clear_dirty {
            self.dirty_pages.clear();
        }
        assert(self@ =~= before.emptied(clear_dirty));
    }

    /// Takes note that pages are encrypted from now on. `made` says how making the encryption
    /// context for pages of the pager's page size ended. With a log the cache is emptied and the
    /// schema cookie forgotten: what was read so far was read without the context.
    pub fn set_encryption_context(&mut self, made: Result<(), LimboError>) -> (r: Result<
        (),
        LimboError,
    >)
        requires
            old(self)@.wf(),
            old(self)@.dirty_known(),
            old(self)@.enable_encryption ==> is_page_size(old(self)@.page_size as int),
        ensures
            final(self)@.wf(),
            r == (if !old(self)@.enable_encryption {
                Err::<(), LimboError>(
                    LimboError::InvalidArgument(BadArgument::EncryptionNotEnabled),
                )
            } else {
                made
            }),
            final(self)@ == (if r is Ok && old(self)@.wal is Some {
                old(self)@.outdated()
            } else {
                old(self)@
            }),
    {
        if !self.enable_encryption {
            return Err(LimboError::InvalidArgument(BadArgument::EncryptionNotEnabled));
        }
        if made.is_err() || self.wal.is_none() {
            return made;
        }
        let ghost before = self@;
        self.clear_page_cache(false);
        self.set_schema_cookie(None);
        assert(self@ =~= before.outdated());
        made
    }

    /// Begins a read transaction after `attempts` attempts that failed, or says how to wait before the
    /// next one. If the database was changed since the last one, the cache is emptied.
    pub fn begin_read_tx(&mut self, shared: &mut WalFileShared, attempts: u32) -> (r: Result<
        BeginRead,
        LimboError,
    >)
        requires
            old(self)@.wf(),
            old(self)@.dirty_known(),
            old(self)@.wal is Some ==> {
                &&& old(shared)@.wf()
                &&& old(self)@.wal->0.max_frame_read_lock_index == NO_LOCK_HELD
                &&& forall|i: int|
                    0 <= i < READ_SLOTS ==> (#[trigger] old(shared)@.slots[i]).readers
                        < 0x7fff_ffff
                &&& old(shared)@.nbackfills < u64::MAX
            },
            attempts < u32::MAX,
        ensures
            final(self)@.wf(),
            match old(self)@.wal {
                None => {
                    &&& r == Ok::<BeginRead, LimboError>(BeginRead::Started(false))
                    &&& final(self)@ == old(self)@
                    &&& final(shared)@ == old(shared)@
                },
                Some(wal) => {
                    let s = old(shared)@;
                    &&& final(shared)@.wf()
                    &&& match WalFile::entry(s) {
                        Some((idx, _, chosen)) if !chosen.slots[idx].writer => {
                            let changed = wal.sees_change(s);
                            let reader = PagerView {
                                wal: Some(wal.reading(Snapshot::of(s), idx as usize)),
                                ..old(self)@
                            };
                            &&& r == Ok::<BeginRead, LimboError>(BeginRead::Started(changed))
                            &&& final(shared)@ == chosen.with_slot(
                                idx,
                                chosen.slots[idx].add_reader(),
                            )
                            &&& final(self)@ == (if changed {
                                reader.outdated()
                            } else {
                                reader
                            })
                        },
                        _ => {
                            &&& final(shared)@ == WalFile::after_choice(s)
                            &&& final(self)@ == old(self)@
                            &&& if attempts >= 100 {
                                r == Err::<BeginRead, LimboError>(LimboError::Busy)
                            } else {
                                r == Ok::<BeginRead, LimboError>(
                                    BeginRead::Wait {
                                        attempts: (attempts + 1) as u32,
                                        how: crate::wal::backoff_after((attempts + 1) as u32),
                                    },
                                )
                            }
                        },
                    }
                },
            },
    {
        let ghost before = self@;
        if self.wal.is_none() {
            return Ok(BeginRead::Started(false));
        }
        let mut wal = self.wal.take().unwrap();
        let r = wal.begin_read_tx(shared, attempts);
        let ghost after = wal;
        self.wal = Some(wal);
        assert(self@ =~= (PagerView { wal: Some(after), ..before }));
        if let Ok(BeginRead::Started(changed)) = r {
            if changed {
                self.clear_page_cache(false);
                self.set_schema_cookie(None);
            }
        }
        r
    }

    /// Brings the connection up to date without a read transaction; if there was anything new, the
    /// cache is emptied.
    pub fn mvcc_refresh_if_db_changed(&mut self, shared: &WalFileShared)
        requires
            old(self)@.wf(),
            old(self)@.dirty_known(),
            shared@.nbackfills < u64::MAX,
        ensures
            final(self)@.wf(),
            final(self)@ == (match old(self)@.wal {
                None => old(self)@,
                Some(wal) => if wal.sees_change(shared@) {
                    (PagerView {
                        wal: Some(wal.refreshed(Snapshot::of(shared@))),
                        ..old(self)@
                    }).outdated()
                } else {
                    old(self)@
                },
            }),
    {
        let ghost before = self@;
        if self.wal.is_none() {
            return ;
        }
        let mut wal = self.wal.take().unwrap();
        let changed = wal.mvcc_refresh_if_db_changed(shared);
        let ghost after = wal;
        self.wal = Some(wal);
        assert(self@ =~= (PagerView { wal: Some(after), ..before }));
        if changed {
            self.clear_page_cache(false);
            self.set_schema_cookie(None);
        }
    }

    /// Takes the next step of beginning a write transaction: page 1 has to be on disk first. `first`
    /// says whether nobody else is about that, `reserved` how many bytes of each page the files
    /// need, and `salt_2` is a random number.
    pub fn begin_write_tx(
        &mut self,
        shared: &mut WalFileShared,
        salt_2: u32,
        first: bool,
        reserved: u8,
    ) -> (r: Result<IOResult<()>, LimboError>)
        requires
            old(self)@.wf(),
            old(self)@.init_page_1 is Some && first ==> old(self)@.can_allocate_page1(),
            old(self)@.wal matches Some(wal) ==> {
                &&& old(shared)@.wf()
                &&& wal.locks_held(old(shared)@)
                &&& wal.max_frame_read_lock_index != NO_LOCK_HELD
                &&& !wal.write_lock_held
                &&& wal.checkpoint_guard is None
                &&& old(shared)@.nbackfills <= old(shared)@.max_frame
                &&& old(shared)@.nbackfills < u64::MAX
            },
        ensures
            final(self)@.wf(),
            if old(self)@.init_page_1 is None {
                old(self)@.writer_begun(
                    old(shared)@,
                    salt_2,
                    final(self)@,
                    final(shared)@,
                    r,
                )
            } else if !first {
                &&& r == Ok::<IOResult<()>, LimboError>(IOResult::IO(IoRequest::Yield))
                &&& final(self)@ == old(self)@
                &&& final(shared)@ == old(shared)@
            } else {
                match old(self)@.allocate_page1_state {
                    AllocatePage1State::Writing { page } => {
                        let (cache, inserted) = old(self)@.cache.inserted(
                            1,
                            PageView { pin_count: (page@.pin_count - 1) as usize, ..page@ },
                        );
                        match inserted {
                            Err(e) => {
                                &&& r == Err::<IOResult<()>, LimboError>(
                                    LimboError::InternalError(
                                        InternalFault::CacheInsert { page_id: 1, reason: e },
                                    ),
                                )
                                &&& final(self)@ == old(self)@.with_cache(cache)
                                &&& final(shared)@ == old(shared)@
                            },
                            Ok(()) => (PagerView {
                                cache,
                                init_page_1: None,
                                allocate_page1_state: AllocatePage1State::Done,
                                ..old(self)@
                            }).writer_begun(
                                old(shared)@,
                                salt_2,
                                final(self)@,
                                final(shared)@,
                                r,
                            ),
                        }
                    },
                    _ => {
                        let page1 = old(self)@.first_page1(reserved);
                        &&& r matches Ok(IOResult::IO(IoRequest::WriteDbPages { pages }))
                            && pages@.len() == 1 && pages@[0]@ == (1u32, page1.data())
                        &&& final(self)@.allocate_page1_state matches AllocatePage1State::Writing {
                            page,
                        } && page@ == (PageView { pin_count: 1, ..page1 })
                        &&& final(self)@ == (PagerView {
                            reserved_space: old(self)@.first_header(reserved).reserved_space as u16,
                            allocate_page1_state: final(self)@.allocate_page1_state,
                            ..old(self)@.with_cookie()
                        })
                        &&& final(shared)@ == old(shared)@
                    },
                }
            },
    {
        match self.maybe_allocate_page1(first, reserved) {
            Err(e) => {
                return Err(e);
            },
            Ok(IOResult::IO(io)) => {
                return Ok(IOResult::IO(io));
            },
            Ok(IOResult::Done(())) => {},
        }
        let ghost mid = self@;
        if self.wal.is_none() {
            return Ok(IOResult::Done(()));
        }
        let mut wal = self.wal.take().unwrap();
        let r = wal.begin_write_tx(shared, salt_2);
        let ghost after = wal;
        self.wal = Some(wal);
        assert(self@ =~= (PagerView { wal: Some(after), ..mid }));
        match r {
            Err(e) => Err(e),
            Ok(()) => Ok(IOResult::Done(())),
        }
    }

    /// Ends the read transaction, if there is one.
    pub fn end_read_tx(&mut self, shared: &mut WalFileShared)
        requires
            old(self)@.wf(),
            old(self)@.wal matches Some(wal) ==> old(shared)@.wf() && wal.locks_held(old(shared)@),
        ensures
            final(self)@.wf(),
            match old(self)@.wal {
                None => final(self)@ == old(self)@ && final(shared)@ == old(shared)@,
                Some(wal) => {
                    &&& final(shared)@.wf()
                    &&& final(self)@ == (PagerView {
                        wal: Some(WalFile { max_frame_read_lock_index: NO_LOCK_HELD, ..wal }),
                        ..old(self)@
                    })
                    &&& final(shared)@ == wal.reader_gone(old(shared)@)
                },
            },
    {
        let ghost before = self@;
        if self.wal.is_none() {
            return ;
        }
        let mut wal = self.wal.take().unwrap();
        wal.end_read_tx(shared);
        let ghost after = wal;
        self.wal = Some(wal);
        assert(self@ =~= (PagerView { wal: Some(after), ..before }));
    }

    /// Drops everything about operations that are under way. If the result of a checkpoint has
    /// locks, they are given up.
    pub fn reset_internal_states(&mut self, shared: &mut WalFileShared)
        requires
            old(self)@.wf(),
            old(self)@.result_guard_held(old(shared)@),
        ensures
            final(self)@.wf(),
            old(shared)@.wf() ==> final(shared)@.wf(),
            old(self)@.states_reset(final(self)@),
            final(shared)@ == old(self)@.result_dropped(old(shared)@),
    {
        let ghost before = self@;
        let mut spill = SpillState::Idle;
        std::mem::swap(&mut spill, &mut self.spill_state);
        let ghost unspilled = self@;
        assert(unspilled =~= before.with_spill(SpillState::Idle));
        let list: Vec<usize> = match spill {
            SpillState::WritingToWal { frames, .. } => frame_pages(&frames),
            SpillState::WritingToDisk { pages } => pages,
            _ => Vec::new(),
        };
        assert(list@ =~= pinned_by(before.spill_state));
        self.unpin_all(&list);
        self.clear_checkpoint_state(shared);
        self.syncing = false;
        self.commit_info.reset();
        self.allocate_page_state = AllocatePageState::Start;
        self.free_page_state = FreePageState::Start;
        self.vacuum_state = VacuumState::new();
        assert(self@.savepoints =~= before.savepoints);
    }

    fn unpin_all(&mut self, list: &Vec<usize>)
        requires
            old(self)@.wf(),
        ensures
            final(self)@.wf(),
            final(self)@ == old(self)@.with_pages(all_unpinned(old(self)@.cache.pages, list@)),
    {
        let ghost before = self@;
        let mut i: usize = 0;
        assert(list@.take(0) =~= Seq::empty());
        assert(self@ =~= before.with_pages(before.cache.pages));
        while i < list.len()
            invariant
                i <= list@.len(),
                self@.wf(),
                self@ == before.with_pages(all_unpinned(before.cache.pages, list@.take(i as int))),
            decreases list@.len() - i,
        {
            let id: usize = list[i];
            let ghost pages = self@.cache.pages;
            assert(list@.take(i + 1).drop_last() =~= list@.take(i as int));
            if self.page_cache.contains_key(id) {
                let mut page = self.page_cache.take(id);
                let _was_pinned = page.try_unpin();
                self.page_cache.put(id, page);
                assert(self@.cache.pages =~= pages.insert(id, unpinned(pages[id])));
            }
            i = i + 1;
        }
        assert(list@.take(list@.len() as int) =~= list@);
    }

    /// Undoes what a transaction did to the pages and to the log.
    pub fn rollback(&mut self, shared: &mut WalFileShared, is_write: bool)
        requires
            old(self)@.can_roll_back(is_write),
            old(self)@.result_guard_held(old(shared)@),
        ensures
            final(self)@.wf(),
            old(shared)@.wf() ==> final(shared)@.wf(),
            old(self)@.rolled_back(old(shared)@, is_write, final(self)@, final(shared)@),
    {
        let ghost before = self@;
        if is_write {
            self.clear_page_cache(true);
        }
        self.reset_internal_states(shared);
        assert(before.without_changes(is_write).states_reset(self@));
        self.set_schema_cookie(None);
        let ghost forgot = self@;
        if is_write {
            if self.wal.is_some() {
                let mut wal = self.wal.take().unwrap();
                wal.rollback(shared, None);
                self.wal = Some(wal);
                assert(self@ =~= (PagerView { wal: self@.wal, ..forgot }));
            }
        }
    }

    /// Rolls the transaction back and ends it, unless it belongs to another statement or the
    /// database has no log. The log is rolled back before the write lock is given up, so that
    /// nobody else's frames are taken back.
    pub fn rollback_tx(&mut self, shared: &mut WalFileShared, nested: bool, is_write: bool)
        requires
            old(self)@.can_roll_back(is_write),
            !nested ==> (old(self)@.wal matches Some(wal) ==> {
                &&& old(shared)@.wf()
                &&& wal.locks_held(old(shared)@)
                &&& old(self)@.result_guard_held(old(shared)@)
                &&& old(self)@.result_guard() is Some ==> wal.checkpoint_guard is None
                &&& old(self)@.result_guard() == Some(CheckpointLocks::Writer)
                    ==> !wal.write_lock_held
                &&& is_write ==> wal.write_lock_held && wal.checkpoint_guard
                    != Some(CheckpointLocks::Writer)
            }),
        ensures
            final(self)@.wf(),
            nested || old(self)@.wal is None ==> final(self)@ == old(self)@ && final(shared)@
                == old(shared)@,
            !nested && old(self)@.wal is Some ==> exists|v: PagerView, t: SharedView|
                {
                    &&& #[trigger] old(self)@.rollback_base(is_write).rolled_back(
                        old(shared)@,
                        is_write,
                        v,
                        t,
                    )
                    &&& v.wal is Some
                    &&& final(self)@ == (PagerView {
                        wal: Some(
                            WalFile {
                                write_lock_held: v.wal->0.write_lock_held && !is_write,
                                max_frame_read_lock_index: NO_LOCK_HELD,
                                ..v.wal->0
                            },
                        ),
                        ..v
                    })
                    &&& final(shared)@ == v.wal->0.reader_gone(
                        if is_write {
                            (SharedView { write_lock: t.write_lock.released(), ..t })
                        } else {
                            t
                        },
                    )
                },
    {
        let ghost before = self@;
        if nested {
            return ;
        }
        if self.wal.is_none() {
            return ;
        }
        let ghost s = shared@;
        assert(s.slots[0].wf());
        if is_write {
            self.clear_savepoints();
            assert(self@ == before.rollback_base(true));
            self.rollback(shared, true);
            let ghost v = self@;
            let ghost t = shared@;
            assert(before.rollback_base(true).rolled_back(s, true, v, t));
            let mut wal = self.wal.take().unwrap();
            wal.end_write_tx(shared);
            wal.end_read_tx(shared);
            let ghost w = wal;
            self.wal = Some(wal);
            assert(self@ =~= (PagerView { wal: Some(w), ..v }));
        } else {
            self.rollback(shared, false);
            let ghost v = self@;
            let ghost t = shared@;
            assert(before.rollback_base(false).rolled_back(s, false, v, t));
            let mut wal = self.wal.take().unwrap();
            wal.end_read_tx(shared);
            let ghost w = wal;
            self.wal = Some(wal);
            assert(self@ =~= (PagerView { wal: Some(w), ..v }));
        }
    }

    /// What the connection knows of the log.
    pub fn wal_state(&self, shared: &WalFileShared) -> (r: Result<WalState, LimboError>)
        ensures
            r == (match self@.wal {
                None => Err::<WalState, LimboError>(
                    LimboError::InternalError(InternalFault::NoWal),
                ),
                Some(wal) => Ok::<WalState, LimboError>(
                    WalState {
                        checkpoint_seq_no: shared@.header.checkpoint_seq,
                        max_frame: wal.max_frame,
                    },
                ),
            }),
    {
        match &self.wal {
            None => Err(LimboError::InternalError(InternalFault::NoWal)),
            Some(wal) => Ok(
                WalState {
                    checkpoint_seq_no: wal.get_checkpoint_seq(shared),
                    max_frame: wal.get_max_frame(),
                },
            ),
        }
    }

    /// The distinct pages among the frames after the watermark, which were read from the log.
    pub fn wal_changed_pages_after(&self, frame_watermark: u64, frames: &Vec<Vec<u8>>) -> (r: Vec<
        u32,
    >)
        requires
            self@.wal matches Some(wal) && frame_watermark <= wal.max_frame && frames@.len()
                == wal.max_frame - frame_watermark,
            forall|i: int|
                0 <= i < frames@.len() ==> (#[trigger] frames@[i])@.len() >= WAL_FRAME_HEADER_SIZE,
        ensures
            r@ == crate::frame_index::first_occurrences(
                Seq::new(
                    frames@.len(),
                    |i: int| WalFrameHeader::decoded(frames@[i]@).page_number,
                ),
            ),
    {
        self.wal.as_ref().unwrap().changed_pages_after(frame_watermark, frames)
    }

    /// Where a frame is in the log's file.
    pub fn wal_get_frame(&self, shared: &WalFileShared, frame_no: u64) -> (r: Result<
        u64,
        LimboError,
    >)
        requires
            shared@.enabled,
            frame_no >= 1,
            frame_position(frame_no as int, shared@.header.page_size as int) <= u64::MAX,
        ensures
            match self@.wal {
                None => r == Err::<u64, LimboError>(
                    LimboError::InternalError(InternalFault::NoWal),
                ),
                Some(_) => r matches Ok(offset) && offset == frame_position(
                    frame_no as int,
                    shared@.header.page_size as int,
                ),
            },
    {
        match &self.wal {
            None => Err(LimboError::InternalError(InternalFault::NoWal)),
            Some(wal) => Ok(wal.read_frame_raw(shared, frame_no)),
        }
    }
}

/// The frames' pages.
fn frame_pages(frames: &Vec<FrameMeta>) -> (r: Vec<usize>)
    ensures
        r@ == Seq::new(frames@.len(), |i: int| frames@[i].page_id as usize),
{
    let mut r: Vec<usize> = Vec::new();
    let mut i: usize = 0;
    while i < frames.len()
        invariant
            i <= frames@.len(),
            r@ == Seq::new(i as nat, |i: int| frames@[i].page_id as usize),
        decreases frames@.len() - i,
    {
        r.push(frames[i].page_id as usize);
        i = i + 1;
        assert(r@ =~= Seq::new(i as nat, |i: int| frames@[i].page_id as usize));
    }
    r
}

impl PagerView {
    /// The pager with no savepoint open and an empty journal.
    pub open spec fn without_savepoints(self) -> PagerView {
        PagerView {
            savepoints: Seq::empty(),
            journal: match self.journal {
                Some(j) => Some(JournalView { data: Seq::empty(), ..j }),
                None => None,
            },
            ..self
        }
    }
}

} // verus!
