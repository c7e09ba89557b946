//! What becomes of a frame that was made elsewhere.

use vstd::prelude::*;
use crate::bytes::be32;
use crate::commit_tx::among;
use crate::db_header::law_header_fields_are_in_place;
use crate::error::LimboError;
use crate::ondisk::is_page_size;
use crate::pager::PagerView;
use crate::pager_state::IOResult;
use crate::transaction::WalFrameInfo;
use crate::wal::WalFile;
use crate::wal_append::RawFrameStep;
use crate::wal_format::{ints, law_frame_layout, WalFrameHeader};
use crate::wal_shared::SharedView;

verus! {

/// A raw frame gets into the log only as the next one: right behind the last frame that the
/// connection has, with its page, its database size and the salts of this log. A frame that the
/// log has already is only compared, page by page; one that would leave a gap is refused, as is one
/// whose page has not the log's page size.
pub proof fn law_raw_frame_is_the_next_one(
    wal: WalFile,
    s: SharedView,
    frame_id: u64,
    page_id: u32,
    db_size: u32,
    page: Seq<u8>,
    r: Result<RawFrameStep, LimboError>,
)
    requires
        wal.raw_frame_step(s, frame_id, page_id, db_size, page, r),
        s.initialized,
        is_page_size(s.header.page_size as int),
    ensures
        match r {
            Ok(RawFrameStep::Append { offset, frame, .. }) => {
                &&& frame_id == wal.max_frame + 1
                &&& page.len() == s.header.page_size
                &&& offset == 32 + wal.max_frame * (s.header.page_size + 24)
                &&& frame@.len() == 24 + page.len()
                &&& be32(frame@, 0) == page_id
                &&& be32(frame@, 4) == db_size
                &&& be32(frame@, 8) == s.header.salt_1
                &&& be32(frame@, 12) == s.header.salt_2
                &&& frame@.subrange(24, frame@.len() as int) == page
            },
            Ok(RawFrameStep::Compare { offset, len }) => {
                &&& frame_id <= wal.max_frame
                &&& offset == 32 + (frame_id - 1) * (s.header.page_size + 24) + 24
                &&& len == page.len()
                &&& len == s.header.page_size
            },
            Ok(RawFrameStep::PrepareHeader) => false,
            Err(_) => frame_id > wal.max_frame + 1 || page.len() != s.header.page_size,
        },
        page.len() != s.header.page_size || frame_id > wal.max_frame + 1 ==> r is Err,
{
    if let Ok(RawFrameStep::Append { .. }) = r {
        law_frame_layout(s.header, ints(wal.last_checksum), page_id, db_size, page);
        assert(frame_id - 1 == wal.max_frame);
    }
}

/// A raw frame that got into the log replaces its page in the cache, if it is there. If it carries a
/// database size, it commits: nothing is dirty any more. If it carries page 1, no page beyond the
/// size in it stays in the cache. Other pages keep their bytes.
pub proof fn law_inserted_frame_replaces_its_page(
    v: PagerView,
    header: WalFrameHeader,
    data: Seq<u8>,
    w: PagerView,
    r: Result<IOResult<WalFrameInfo>, LimboError>,
    other: usize,
)
    requires
        v.frame_inserted(header, data, w, r),
        r matches Ok(IOResult::Done(_)),
        v.init_page_1 is None,
        data.len() >= 100,
        header.page_number == 1 ==> v.has(1),
    ensures
        ({
            let id = header.page_number as usize;
            let info = r->Ok_0->Done_0;
            &&& info.page_no == header.page_number && info.db_size == header.db_size
            &&& w.has(id) && v.cache.usable(id) ==> w.page(id).buffer == Some(data)
            &&& id != 1 && v.has(id) ==> w.has(id)
            &&& id == 1 && be32(data, 28) >= 1 ==> w.has(1)
            &&& id == 1 && w.cache.pages.contains_key(other) ==> other <= be32(data, 28)
            &&& header.db_size > 0 ==> w.dirty == Set::<u32>::empty()
            &&& header.db_size > 0 && w.cache.pages.contains_key(other) && among(other, v.dirty)
                ==> !w.page(other).dirty
            &&& header.db_size == 0 ==> w.dirty == v.dirty
            &&& other != id && w.cache.pages.contains_key(other) ==> v.cache.pages.contains_key(
                other,
            ) && w.page(other).buffer == v.page(other).buffer
        }),
{
    law_header_fields_are_in_place(data);
}

} // verus!
