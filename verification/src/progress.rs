//! The progress of one download as the user sees it: a fraction done, a status
//! and whether the download has ended.
use vstd::prelude::*;

use crate::text::owned;

verus! {

/// Where a download stands.
#[derive(Clone, Copy, Debug, PartialEq, Eq, Structural)]
pub enum DownloadStatus {
    /// Not started yet.
    Waiting,
    /// Bytes are arriving.
    Downloading,
    /// Ended with the resource in place.
    Completed,
    /// Ended with an error.
    Failed,
}

/// The text shown for each status.
pub open spec fn status_label(s: DownloadStatus) -> Seq<char> {
    match s {
        DownloadStatus::Waiting => "等待中"@,
        DownloadStatus::Downloading => "下载中"@,
        DownloadStatus::Completed => "完成"@,
        DownloadStatus::Failed => "失败"@,
    }
}

/// The text shown for a status.
pub fn status_text(s: DownloadStatus) -> (r: String)
    ensures
        r@ == status_label(s),
{
    match s {
        DownloadStatus::Waiting => owned("等待中"),
        DownloadStatus::Downloading => owned("下载中"),
        DownloadStatus::Completed => owned("完成"),
        DownloadStatus::Failed => owned("失败"),
    }
}

/// The fraction `num / den` of a download that is done.
#[derive(Clone, Copy, Debug, PartialEq, Eq, Structural)]
pub struct Fraction {
    pub num: u64,
    pub den: u64,
}

/// The fraction lies in `[0, 1]` and has a denominator.
pub open spec fn is_unit_fraction(f: Fraction) -> bool {
    f.num <= f.den && f.den > 0
}

/// The status agrees with the fraction and the finished flag: a waiting
/// download has done nothing and has not ended, a completed one has done
/// everything and has ended, a failed one has ended.
pub open spec fn status_agrees(f: Fraction, status: DownloadStatus, finished: bool) -> bool {
    &&& status == DownloadStatus::Waiting ==> f.num == 0 && !finished
    &&& status == DownloadStatus::Completed ==> f.num == f.den && finished
    &&& status == DownloadStatus::Failed ==> finished
}

/// The progress of one download.
pub struct DownloadState {
    fraction: Fraction,
    status: DownloadStatus,
    finished: bool,
}

/// What a `DownloadState` holds.
pub struct DownloadView {
    pub fraction: Fraction,
    pub status: DownloadStatus,
    pub finished: bool,
}

impl View for DownloadState {
    type V = DownloadView;

    closed spec fn view(&self) -> DownloadView {
        DownloadView { fraction: self.fraction, status: self.status, finished: self.finished }
    }
}

/// The fraction shown after `downloaded` bytes of `total`: their ratio, capped
/// at 1; 0 where the total is unknown.
pub open spec fn progress_fraction(downloaded: u64, total: u64) -> Fraction {
    if total > 0 {
        Fraction { num: if downloaded <= total { downloaded } else { total }, den: total }
    } else {
        Fraction { num: 0, den: 1 }
    }
}

/// The fraction after `downloaded` bytes of a known `total` is
/// `min(downloaded, total) / total`: all done once everything has arrived,
/// never more than all; with no known total it is 0.
pub proof fn law_progress_fraction(downloaded: u64, total: u64)
    ensures
        total > 0 ==> progress_fraction(downloaded, total).den == total,
        total > 0 && downloaded <= total ==> progress_fraction(downloaded, total).num == downloaded,
        total > 0 && downloaded >= total ==> progress_fraction(downloaded, total).num == total,
        total == 0 ==> progress_fraction(downloaded, total) == (Fraction { num: 0, den: 1 }),
{
}

impl DownloadState {
    #[verifier::type_invariant]
    spec fn consistent(self) -> bool {
        is_unit_fraction(self.fraction) && status_agrees(self.fraction, self.status, self.finished)
    }

    /// A download that has not started: nothing done, waiting.
    pub fn new() -> (r: DownloadState)
        ensures
            r@.fraction == (Fraction { num: 0, den: 1 }),
            r@.status == DownloadStatus::Waiting,
            !r@.finished,
            status_agrees(r@.fraction, r@.status, r@.finished),
    {
        DownloadState {
            fraction: Fraction { num: 0, den: 1 },
            status: DownloadStatus::Waiting,
            finished: false,
        }
    }

    /// Records that `downloaded` bytes of `total` have arrived.
    pub fn update(&mut self, downloaded: u64, total: u64)
        ensures
            final(self)@.fraction == progress_fraction(downloaded, total),
            total > 0 ==> final(self)@.fraction.den == total && final(self)@.fraction.num == (if downloaded
                <= total {
                downloaded
            } else {
                total
            }),
            total == 0 ==> final(self)@.fraction == (Fraction { num: 0, den: 1 }),
            final(self)@.status == DownloadStatus::Downloading,
            final(self)@.finished == old(self)@.finished,
            is_unit_fraction(final(self)@.fraction),
            status_agrees(final(self)@.fraction, final(self)@.status, final(self)@.finished),
    {
        let f = if total > 0 {
            Fraction {
                num: if downloaded <= total {
                    downloaded
                } else {
                    total
                },
                den: total,
            }
        } else {
            Fraction { num: 0, den: 1 }
        };
        *self = DownloadState { fraction: f, status: DownloadStatus::Downloading, finished: self.finished };
    }

    /// Records the end of the download: complete, with everything done, or failed,
    /// with the fraction as it stood.
    pub fn set_finished(&mut self, success: bool)
        ensures
            final(self)@.finished,
            final(self)@.status == (if success {
                DownloadStatus::Completed
            } else {
                DownloadStatus::Failed
            }),
            final(self)@.fraction == (if success {
                Fraction { num: 1, den: 1 }
            } else {
                old(self)@.fraction
            }),
            is_unit_fraction(final(self)@.fraction),
            status_agrees(final(self)@.fraction, final(self)@.status, final(self)@.finished),
    {
        proof {
            use_type_invariant(&*self);
        }
        let fraction = if success {
            Fraction { num: 1, den: 1 }
        } else {
            self.fraction
        };
        let status = if success {
            DownloadStatus::Completed
        } else {
            DownloadStatus::Failed
        };
        *self = DownloadState { fraction, status, finished: true };
    }

    /// The fraction done, the status text and whether the download has ended.
    pub fn snapshot(&self) -> (r: (Fraction, String, bool))
        ensures
            r.0 == self@.fraction,
            r.1@ == status_label(self@.status),
            r.2 == self@.finished,
            is_unit_fraction(r.0),
            status_agrees(r.0, self@.status, r.2),
    {
        proof {
            use_type_invariant(self);
        }
        (self.fraction, status_text(self.status), self.finished)
    }
}

/// What the downloads list shows for a resource, by the download recorded for
/// it: a button to start one where none is recorded, progress while it runs,
/// and its status with a button to clear it once it has ended.
#[derive(Clone, Copy, Debug, PartialEq, Eq, Structural)]
pub enum DownloadRow {
    Offer,
    InProgress,
    Finished,
}

/// What a click on a row's button does to the record of downloads.
#[derive(Clone, Copy, Debug, PartialEq, Eq, Structural)]
pub enum RowAction {
    Nothing,
    /// Record a new, waiting download for the resource and start it.
    Start,
    /// Drop the resource's record.
    Clear,
}

/// The row for a resource, given whether the download recorded for it has
/// ended (`None` where none is recorded).
pub open spec fn spec_download_row(recorded_finished: Option<bool>) -> DownloadRow {
    match recorded_finished {
        None => DownloadRow::Offer,
        Some(false) => DownloadRow::InProgress,
        Some(true) => DownloadRow::Finished,
    }
}

/// What a click on the row's button does: it starts a download only where none
/// is recorded, and clears a record only once the download has ended; a row in
/// progress has no button.
pub open spec fn spec_row_click(row: DownloadRow, clicked: bool) -> RowAction {
    if clicked && row == DownloadRow::Offer {
        RowAction::Start
    } else if clicked && row == DownloadRow::Finished {
        RowAction::Clear
    } else {
        RowAction::Nothing
    }
}

/// Decides `spec_download_row`.
pub fn download_row(recorded_finished: Option<bool>) -> (r: DownloadRow)
    ensures
        r == spec_download_row(recorded_finished),
{
    match recorded_finished {
        None => DownloadRow::Offer,
        Some(false) => DownloadRow::InProgress,
        Some(true) => DownloadRow::Finished,
    }
}

/// Decides `spec_row_click`.
pub fn row_click(row: DownloadRow, clicked: bool) -> (r: RowAction)
    ensures
        r == spec_row_click(row, clicked),
{
    if clicked && row == DownloadRow::Offer {
        RowAction::Start
    } else if clicked && row == DownloadRow::Finished {
        RowAction::Clear
    } else {
        RowAction::Nothing
    }
}

/// The record of downloads changes only as the rows allow: a download is
/// started only for a resource with none recorded, and a record is dropped
/// only after its download has ended; a running download is left alone.
pub proof fn law_downloads_start_fresh_and_clear_when_ended(
    recorded_finished: Option<bool>,
    clicked: bool,
)
    ensures
        spec_row_click(spec_download_row(recorded_finished), clicked) == RowAction::Start
            ==> recorded_finished is None,
        spec_row_click(spec_download_row(recorded_finished), clicked) == RowAction::Clear
            ==> recorded_finished == Some(true),
        recorded_finished == Some(false) ==> spec_row_click(
            spec_download_row(recorded_finished),
            clicked,
        ) == RowAction::Nothing,
{
}

} // verus!
