//! How complete segments get into the database.

use crate::clickhouse::receiver::{counted, UploadBackoff, MAX_BACKOFF};
use crate::clickhouse::transport::Check;
use crate::text::string_views;
use vstd::prelude::*;

verus! {

/// The pause after all segments were inserted, in milliseconds.
pub const IDLE_PAUSE: u64 = 250;

/// What the uploader waits for.
#[derive(Clone, Copy, Debug, PartialEq, Eq, Structural)]
pub enum UploadPhase {
    /// The end of a pause.
    Sleeping,
    /// The answer to a query by which the server is checked.
    Checking(Check),
    /// The list of complete segments.
    Listing,
    /// The first segment of the list to be inserted.
    Inserting,
    /// The first segment of the list to be removed; it has so many rows.
    Removing(u32),
}

/// What is to be done next.
#[derive(Clone, Copy, Debug, PartialEq, Eq, Structural)]
pub enum UploadAction {
    /// Wait for some milliseconds.
    Sleep(u64),
    /// Ask the server.
    Query(Check),
    /// List the complete segments, oldest first.
    List,
    /// Insert the first segment of the list.
    Insert,
    /// Remove the first segment of the list, and find out the use of disk
    /// space.
    Remove,
}

/// What came of it; nothing where it failed.
#[derive(Debug)]
pub enum UploadEvent {
    /// A pause is over.
    Awake,
    Answered(Option<String>),
    Listed(Option<Vec<String>>),
    /// The number of rows that were inserted.
    Inserted(Option<u32>),
    /// The use of disk space.
    Removed(Option<u64>),
}

/// What an [`UploadEvent`] holds.
pub ghost enum UploadEventView {
    Awake,
    Answered(Option<Seq<char>>),
    Listed(Option<Seq<Seq<char>>>),
    Inserted(Option<u32>),
    Removed(Option<u64>),
}

impl View for UploadEvent {
    type V = UploadEventView;

    open spec fn view(&self) -> UploadEventView {
        match self {
            UploadEvent::Awake => UploadEventView::Awake,
            UploadEvent::Answered(text) => UploadEventView::Answered(
                match text {
                    Some(text) => Some(text@),
                    None => None,
                },
            ),
            UploadEvent::Listed(names) => UploadEventView::Listed(
                match names {
                    Some(names) => Some(string_views(names@)),
                    None => None,
                },
            ),
            UploadEvent::Inserted(rows) => UploadEventView::Inserted(*rows),
            UploadEvent::Removed(usage) => UploadEventView::Removed(*usage),
        }
    }
}

/// The state of the uploader.
#[derive(Debug)]
pub struct Uploader {
    pub phase: UploadPhase,
    /// Whether the server was checked.
    pub checked: bool,
    /// The segments that are still to be inserted, from the last of the list
    /// to the first.
    pub rest: Vec<String>,
    pub backoff: UploadBackoff,
    pub healthy: bool,
    pub errors: u64,
    /// The number of rows that were inserted.
    pub inserted: u64,
    pub disk_bytes: u64,
}

/// What an [`Uploader`] holds; the segments from the first to the last.
pub ghost struct UploaderView {
    pub phase: UploadPhase,
    pub checked: bool,
    pub files: Seq<Seq<char>>,
    pub pause: u64,
    pub healthy: bool,
    pub errors: u64,
    pub inserted: u64,
    pub disk_bytes: u64,
}

impl View for Uploader {
    type V = UploaderView;

    open spec fn view(&self) -> UploaderView {
        UploaderView {
            phase: self.phase,
            checked: self.checked,
            files: string_views(self.rest@).reverse(),
            pause: self.backoff.seconds,
            healthy: self.healthy,
            errors: self.errors,
            inserted: self.inserted,
            disk_bytes: self.disk_bytes,
        }
    }
}

/// Whether an event is one that a phase waits for.
pub open spec fn upload_awaited(phase: UploadPhase, event: UploadEventView) -> bool {
    match phase {
        UploadPhase::Sleeping => event is Awake,
        UploadPhase::Checking(_) => event is Answered,
        UploadPhase::Listing => event is Listed,
        UploadPhase::Inserting => event is Inserted,
        UploadPhase::Removing(_) => event is Removed,
    }
}

/// A state in which the uploader can be.
pub open spec fn uploader_fits(w: UploaderView) -> bool {
    &&& 1 <= w.pause <= MAX_BACKOFF
    &&& w.phase == UploadPhase::Inserting || w.phase is Removing ==> w.files.len() > 0
}

/// Something failed: nothing is removed, and after a pause everything is tried
/// again. The pauses get longer.
pub open spec fn upload_failed(w: UploaderView) -> (UploaderView, UploadAction) {
    (
        UploaderView {
            phase: UploadPhase::Sleeping,
            pause: if w.pause * 2 > MAX_BACKOFF {
                MAX_BACKOFF
            } else {
                (w.pause * 2) as u64
            },
            healthy: false,
            errors: counted(w.errors),
            ..w
        },
        UploadAction::Sleep((w.pause * 1000) as u64),
    )
}

/// The first of the segments is inserted; if there is none, all is well.
pub open spec fn next_segment(w: UploaderView) -> (UploaderView, UploadAction) {
    if w.files.len() == 0 {
        (
            UploaderView { phase: UploadPhase::Sleeping, pause: 1, healthy: true, ..w },
            UploadAction::Sleep(IDLE_PAUSE),
        )
    } else {
        (UploaderView { phase: UploadPhase::Inserting, ..w }, UploadAction::Insert)
    }
}

/// What the uploader does next.
pub open spec fn upload_next(w: UploaderView, event: UploadEventView) -> (
    UploaderView,
    UploadAction,
) {
    match (w.phase, event) {
        (UploadPhase::Sleeping, _) => if w.checked {
            (UploaderView { phase: UploadPhase::Listing, ..w }, UploadAction::List)
        } else {
            (
                UploaderView { phase: UploadPhase::Checking(Check::Version), ..w },
                UploadAction::Query(Check::Version),
            )
        },
        (UploadPhase::Checking(check), UploadEventView::Answered(Some(text))) => if !check.passes(
            text,
        ) {
            upload_failed(w)
        } else if check.following() == Check::Done {
            (
                UploaderView { phase: UploadPhase::Listing, checked: true, ..w },
                UploadAction::List,
            )
        } else {
            (
                UploaderView { phase: UploadPhase::Checking(check.following()), ..w },
                UploadAction::Query(check.following()),
            )
        },
        (UploadPhase::Listing, UploadEventView::Listed(Some(files))) => next_segment(
            UploaderView { files, ..w },
        ),
        (UploadPhase::Inserting, UploadEventView::Inserted(Some(rows))) => (
            UploaderView { phase: UploadPhase::Removing(rows), ..w },
            UploadAction::Remove,
        ),
        (UploadPhase::Removing(rows), UploadEventView::Removed(Some(usage))) => next_segment(
            UploaderView {
                files: w.files.drop_first(),
                inserted: ((w.inserted + rows) % 0x1_0000_0000_0000_0000) as u64,
                disk_bytes: usage,
                ..w
            },
        ),
        _ => upload_failed(w),
    }
}

/// A segment is removed only when its insert has just succeeded.
pub proof fn only_inserted_segments_are_removed(w: UploaderView, event: UploadEventView)
    requires
        upload_awaited(w.phase, event),
        upload_next(w, event).1 == UploadAction::Remove,
    ensures
        w.phase == UploadPhase::Inserting,
        event matches UploadEventView::Inserted(Some(_)),
        upload_next(w, event).0.files == w.files,
{
}

/// A segment leaves the list, but for a new list, only when it was removed; and
/// then it is the first.
pub proof fn no_segment_is_passed_over(w: UploaderView, event: UploadEventView)
    requires
        upload_awaited(w.phase, event),
        upload_next(w, event).0.files != w.files,
    ensures
        event is Listed || ((event matches UploadEventView::Removed(Some(_))) && upload_next(
            w,
            event,
        ).0.files == w.files.drop_first()),
{
}

/// The state stays one in which the uploader can be, and no pause is longer
/// than the longest.
pub proof fn uploader_stays_in_order(w: UploaderView, event: UploadEventView)
    requires
        uploader_fits(w),
        upload_awaited(w.phase, event),
    ensures
        uploader_fits(upload_next(w, event).0),
        upload_next(w, event).1 matches UploadAction::Sleep(pause) ==> pause <= MAX_BACKOFF
            * 1000,
{
}

/// Nothing is listed or inserted before the server has passed every check.
pub proof fn nothing_is_inserted_unchecked(w: UploaderView, event: UploadEventView)
    requires
        upload_awaited(w.phase, event),
        w.checked || !(w.phase == UploadPhase::Listing || w.phase == UploadPhase::Inserting
            || w.phase is Removing),
    ensures
        ({
            let after = upload_next(w, event).0;
            after.checked || !(after.phase == UploadPhase::Listing || after.phase
                == UploadPhase::Inserting || after.phase is Removing)
        }),
{
}

impl Uploader {
    /// An uploader that has done nothing yet.
    pub fn new(disk_bytes: u64) -> (r: Uploader)
        ensures
            r@ == (UploaderView {
                phase: UploadPhase::Sleeping,
                checked: false,
                files: seq![],
                pause: 1,
                healthy: false,
                errors: 0,
                inserted: 0,
                disk_bytes,
            }),
            uploader_fits(r@),
    {
        let r = Uploader {
            phase: UploadPhase::Sleeping,
            checked: false,
            rest: Vec::new(),
            backoff: UploadBackoff::new(),
            healthy: false,
            errors: 0,
            inserted: 0,
            disk_bytes,
        };
        assert(r@.files =~= seq![]);
        r
    }

    /// The segment that is to be inserted or removed.
    pub fn current(&self) -> (r: Option<&String>)
        ensures
            r is Some <==> self@.files.len() > 0,
            r is Some ==> r->0@ == self@.files[0],
    {
        let n = self.rest.len();
        if n == 0 {
            None
        } else {
            Some(&self.rest[n - 1])
        }
    }

    fn fail(&mut self) -> (r: UploadAction)
        requires
            old(self)@.pause <= MAX_BACKOFF,
        ensures
            (final(self)@, r) == upload_failed(old(self)@),
    {
        self.errors = self.errors.wrapping_add(1);
        self.healthy = false;
        self.phase = UploadPhase::Sleeping;
        let seconds = self.backoff.failed();
        UploadAction::Sleep(seconds * 1000)
    }

    fn next_segment(&mut self) -> (r: UploadAction)
        ensures
            (final(self)@, r) == next_segment(old(self)@),
    {
        if self.rest.len() == 0 {
            self.phase = UploadPhase::Sleeping;
            self.healthy = true;
            self.backoff.succeeded();
            UploadAction::Sleep(IDLE_PAUSE)
        } else {
            self.phase = UploadPhase::Inserting;
            UploadAction::Insert
        }
    }

    /// Takes in what came of the last thing that was asked for, and says what
    /// is to be done next.
    pub fn step(&mut self, event: UploadEvent) -> (r: UploadAction)
        requires
            uploader_fits(old(self)@),
            upload_awaited(old(self)@.phase, event@),
        ensures
            (final(self)@, r) == upload_next(old(self)@, event@),
            uploader_fits(final(self)@),
    {
        proof {
            uploader_stays_in_order(self@, event@);
        }
        match (self.phase, event) {
            (UploadPhase::Sleeping, _) => {
                if self.checked {
                    self.phase = UploadPhase::Listing;
                    UploadAction::List
                } else {
                    self.phase = UploadPhase::Checking(Check::Version);
                    UploadAction::Query(Check::Version)
                }
            },
            (UploadPhase::Checking(check), UploadEvent::Answered(Some(text))) => {
                match check.judge(text.as_str()) {
                    Ok(Check::Done) => {
                        self.checked = true;
                        self.phase = UploadPhase::Listing;
                        UploadAction::List
                    },
                    Ok(following) => {
                        self.phase = UploadPhase::Checking(following);
                        UploadAction::Query(following)
                    },
                    Err(_) => self.fail(),
                }
            },
            (UploadPhase::Listing, UploadEvent::Listed(Some(names))) => {
                let ghost files = string_views(names@);
                let mut names = names;
                let mut rest: Vec<String> = Vec::new();
                while names.len() > 0
                    invariant
                        string_views(rest@).reverse() =~= files.skip(names@.len() as int),
                        string_views(names@) =~= files.take(names@.len() as int),
                        names@.len() <= files.len(),
                    decreases names@.len(),
                {
                    let ghost before = rest@;
                    let ghost listed = names@;
                    if let Some(name) = names.pop() {
                        rest.push(name);
                        assert(string_views(listed)[names@.len() as int] == name@);
                        assert(name@ == files[names@.len() as int]);
                        assert(string_views(rest@) =~= string_views(before).push(name@));
                        assert(string_views(names@) =~= string_views(listed).drop_last());
                        assert(string_views(rest@).reverse() =~= seq![name@] + string_views(
                            before,
                        ).reverse());
                        assert(files.skip(names@.len() as int) =~= seq![name@] + files.skip(
                            listed.len() as int,
                        ));
                    }
                }
                self.rest = rest;
                assert(self@.files =~= files);
                self.next_segment()
            },
            (UploadPhase::Inserting, UploadEvent::Inserted(Some(rows))) => {
                self.phase = UploadPhase::Removing(rows);
                UploadAction::Remove
            },
            (UploadPhase::Removing(rows), UploadEvent::Removed(Some(usage))) => {
                let ghost before = self.rest@;
                self.rest.pop();
                assert(string_views(self.rest@) =~= string_views(before).drop_last());
                assert(self@.files =~= string_views(before).reverse().drop_first());
                self.inserted = self.inserted.wrapping_add(rows as u64);
                self.disk_bytes = usage;
                self.next_segment()
            },
            _ => self.fail(),
        }
    }
}

/// A failure is counted, shows in the health, and doubles the pause up to half a
/// minute; it changes nothing in the list, in what was inserted and in what was
/// checked.
pub proof fn failures_are_counted(w: UploaderView, event: UploadEventView)
    requires
        uploader_fits(w),
        upload_awaited(w.phase, event),
        event == UploadEventView::Answered(None) || event == UploadEventView::Listed(None) || event
            == UploadEventView::Inserted(None) || event == UploadEventView::Removed(None),
    ensures
        ({
            let (after, action) = upload_next(w, event);
            &&& w.errors < u64::MAX ==> after.errors == w.errors + 1
            &&& !after.healthy
            &&& after.phase == UploadPhase::Sleeping
            &&& action == UploadAction::Sleep((w.pause * 1000) as u64)
            &&& w.pause <= 15 ==> after.pause == 2 * w.pause
            &&& w.pause > 15 ==> after.pause == 30
            &&& after.files == w.files
            &&& after.inserted == w.inserted
            &&& after.disk_bytes == w.disk_bytes
            &&& after.checked == w.checked
        }),
{
}

/// The rows of a segment count as inserted when the segment has been removed,
/// once, and the use of disk space is what was found then.
pub proof fn inserted_rows_are_counted(w: UploaderView, rows: u32, usage: u64)
    requires
        uploader_fits(w),
        w.phase == UploadPhase::Removing(rows),
        w.inserted + rows <= u64::MAX,
    ensures
        ({
            let after = upload_next(w, UploadEventView::Removed(Some(usage))).0;
            &&& after.inserted == w.inserted + rows
            &&& after.disk_bytes == usage
            &&& after.errors == w.errors
            &&& after.files == w.files.skip(1)
            &&& w.files.len() == 1 ==> after.healthy && after.pause == 1 && after.phase
                == UploadPhase::Sleeping
            &&& w.files.len() > 1 ==> after.phase == UploadPhase::Inserting
        }),
{
    assert(w.files.drop_first() =~= w.files.skip(1));
}

/// What was listed is inserted from the first on, and an insert that succeeded
/// is followed by the removal of the segment with the number of its rows.
pub proof fn listed_segments_are_inserted(w: UploaderView, files: Seq<Seq<char>>, rows: u32)
    ensures
        w.phase == UploadPhase::Listing ==> upload_next(
            w,
            UploadEventView::Listed(Some(files)),
        ).0.files == files,
        w.phase == UploadPhase::Listing && files.len() > 0 ==> upload_next(
            w,
            UploadEventView::Listed(Some(files)),
        ).1 == UploadAction::Insert,
        w.phase == UploadPhase::Listing && files.len() == 0 ==> upload_next(
            w,
            UploadEventView::Listed(Some(files)),
        ).1 == UploadAction::Sleep(250),
        w.phase == UploadPhase::Inserting ==> upload_next(
            w,
            UploadEventView::Inserted(Some(rows)),
        ).0.phase == UploadPhase::Removing(rows),
        w.phase == UploadPhase::Inserting ==> upload_next(
            w,
            UploadEventView::Inserted(Some(rows)),
        ).0.inserted == w.inserted,
{
}

} // verus!
