//! The download orchestrator for one file: a state machine that walks the
//! file's segments in order and, for each, tries the candidate groups in
//! order until one yields the article, decoding every fetched body; and
//! the assembler that concatenates the decoded buffers.
//!
//! The machine decides; a driver performs the article-store calls it asks
//! for and hands back what happened. Every decision — which group to
//! select, when to fetch, when a file fails — is verified here, whatever
//! the store answers.

use vstd::prelude::*;
use vstd::slice::slice_to_vec;

use crate::codec::extract_and_decode;
use crate::codec::extract_and_decode_spec;
use crate::entities::NzbFile;
use crate::entities::NzbFileModel;
use crate::errors::FileDownloadError;

verus! {

/// Mathematical model of a [`StoreAction`].
#[verifier::ext_equal]
pub ghost enum StoreActionModel {
    SelectGroup { index: int },
    FetchArticle { message_id: Seq<char> },
    Finished,
}

/// The next call the driver must make on the article store.
#[derive(Debug)]
pub enum StoreAction {
    /// Issue a group-select call for the candidate group with this index
    /// in the file's group list.
    SelectGroup { index: usize },
    /// Fetch the article body by this message id, already wrapped in
    /// angle brackets.
    FetchArticle { message_id: String },
    /// Every segment has been fetched and decoded; close the session.
    Finished,
}

impl View for StoreAction {
    type V = StoreActionModel;

    open spec fn view(&self) -> StoreActionModel {
        match self {
            StoreAction::SelectGroup { index } => StoreActionModel::SelectGroup {
                index: *index as int,
            },
            StoreAction::FetchArticle { message_id } => StoreActionModel::FetchArticle {
                message_id: message_id@,
            },
            StoreAction::Finished => StoreActionModel::Finished,
        }
    }
}

/// Mathematical model of a [`StoreEvent`].
#[verifier::ext_equal]
pub ghost enum StoreEventModel {
    SelectOk,
    SelectFailed,
    FetchOk { body: Seq<u8> },
    FetchFailed,
}

/// What the article store answered to the pending action.
#[derive(Debug)]
pub enum StoreEvent {
    /// The group-select call succeeded.
    SelectOk,
    /// The group-select call failed; this is fatal for the file.
    SelectFailed,
    /// The fetch returned this raw article body.
    FetchOk { body: Vec<u8> },
    /// The fetch failed; the next candidate group will be tried.
    FetchFailed,
}

impl View for StoreEvent {
    type V = StoreEventModel;

    open spec fn view(&self) -> StoreEventModel {
        match self {
            StoreEvent::SelectOk => StoreEventModel::SelectOk,
            StoreEvent::SelectFailed => StoreEventModel::SelectFailed,
            StoreEvent::FetchOk { body } => StoreEventModel::FetchOk { body: body@ },
            StoreEvent::FetchFailed => StoreEventModel::FetchFailed,
        }
    }
}

/// Mathematical model of a [`Downloader`].
#[verifier::ext_equal]
pub ghost struct DownloaderModel {
    pub file: NzbFileModel,
    pub seg_idx: int,
    pub group_idx: int,
    pub selected: Option<int>,
    pub output: Seq<Seq<u8>>,
}

impl DownloaderModel {
    /// The machine's well-formedness: indices stay inside the file's
    /// lists and one decoded buffer stands for each finished segment.
    pub open spec fn wf(self) -> bool {
        &&& self.file.groups.len() > 0
        &&& 0 <= self.seg_idx <= self.file.segments.len()
        &&& 0 <= self.group_idx < self.file.groups.len()
        &&& self.output.len() == self.seg_idx
        &&& match self.selected {
            Some(g) => 0 <= g < self.file.groups.len(),
            None => true,
        }
    }
}

/// What the driver must do next, given the machine's state: nothing when
/// all segments are done; a fetch when the candidate group is the one
/// already selected; a group select otherwise.
pub open spec fn next_action_spec(m: DownloaderModel) -> StoreActionModel {
    if m.seg_idx == m.file.segments.len() {
        StoreActionModel::Finished
    } else if match m.selected {
        Some(g) => m.file.groups[g] == m.file.groups[m.group_idx],
        None => false,
    } {
        StoreActionModel::FetchArticle {
            message_id: seq!['<'] + m.file.segments[m.seg_idx].article_id + seq!['>'],
        }
    } else {
        StoreActionModel::SelectGroup { index: m.group_idx }
    }
}

/// How the machine moves for one store answer: a successful select marks
/// the group selected; a failed select is fatal; a fetched body is
/// decoded — success stores the buffer and moves to the next segment,
/// restarting at the first candidate group, while a decode failure is
/// fatal and is not retried elsewhere; a failed fetch moves to the next
/// candidate group, and exhausting them all is fatal. The second
/// component says whether the file is complete.
pub open spec fn on_event_spec(m: DownloaderModel, ev: StoreEventModel) -> Result<
    (DownloaderModel, bool),
    FileDownloadError,
> {
    match ev {
        StoreEventModel::SelectOk => Ok(
            (DownloaderModel { selected: Some(m.group_idx), ..m }, false),
        ),
        StoreEventModel::SelectFailed => Err(FileDownloadError::GroupSelectFailed),
        StoreEventModel::FetchOk { body } => match extract_and_decode_spec(body) {
            Ok(bytes) => {
                let m2 = DownloaderModel {
                    seg_idx: m.seg_idx + 1,
                    group_idx: 0,
                    output: m.output.push(bytes),
                    ..m
                };
                Ok((m2, m2.seg_idx == m2.file.segments.len()))
            },
            Err(e) => Err(FileDownloadError::Decode(e)),
        },
        StoreEventModel::FetchFailed => {
            if m.group_idx + 1 >= m.file.groups.len() {
                Err(FileDownloadError::GroupsExhausted)
            } else {
                Ok((DownloaderModel { group_idx: m.group_idx + 1, ..m }, false))
            }
        },
    }
}

/// The download state machine for one file. A driver repeatedly asks for
/// the [`next_action`](Downloader::next_action), performs it on its own
/// session, and reports what happened through
/// [`on_event`](Downloader::on_event).
pub struct Downloader {
    file: NzbFile,
    seg_idx: usize,
    group_idx: usize,
    selected: Option<usize>,
    output: Vec<Vec<u8>>,
}

impl View for Downloader {
    type V = DownloaderModel;

    closed spec fn view(&self) -> DownloaderModel {
        DownloaderModel {
            file: self.file@,
            seg_idx: self.seg_idx as int,
            group_idx: self.group_idx as int,
            selected: match self.selected {
                Some(g) => Some(g as int),
                None => None,
            },
            output: self.output.deep_view(),
        }
    }
}

impl Downloader {
    /// A machine at the start of the given file: no segment fetched, no
    /// group selected, the first candidate group up next.
    pub fn new(file: NzbFile) -> (d: Downloader)
        requires
            file@.groups.len() > 0,
        ensures
            d@ == (DownloaderModel {
                file: file@,
                seg_idx: 0,
                group_idx: 0,
                selected: None,
                output: Seq::empty(),
            }),
            d@.wf(),
    {
        let d = Downloader { file, seg_idx: 0, group_idx: 0, selected: None, output: Vec::new() };
        proof {
            assert(d@.output =~= Seq::<Seq<u8>>::empty());
        }
        d
    }

    /// The call the driver must make next.
    pub fn next_action(&self) -> (a: StoreAction)
        requires
            self@.wf(),
        ensures
            a@ == next_action_spec(self@),
    {
        if self.seg_idx == self.file.segments.len() {
            return StoreAction::Finished;
        }
        let want_fetch = match self.selected {
            Some(g) => {
                let cur = &self.file.groups[g];
                let cand = &self.file.groups[self.group_idx];
                crate::parser::str_eq(cur.as_str(), cand.as_str())
            },
            None => false,
        };
        if want_fetch {
            let id = self.file.segments[self.seg_idx].wrapped_article_id();
            StoreAction::FetchArticle { message_id: id }
        } else {
            StoreAction::SelectGroup { index: self.group_idx }
        }
    }

    /// Feeds back what the store answered, moving the machine as
    /// [`on_event_spec`] describes. `Ok(true)` means every segment is
    /// decoded; an error aborts the whole file, and no partial output is
    /// ever handed out.
    pub fn on_event(&mut self, ev: StoreEvent) -> (r: Result<bool, FileDownloadError>)
        requires
            old(self)@.wf(),
            ev matches StoreEvent::SelectOk ==> next_action_spec(old(self)@) is SelectGroup,
            ev matches StoreEvent::SelectFailed ==> next_action_spec(old(self)@) is SelectGroup,
            ev matches StoreEvent::FetchOk { .. } ==> next_action_spec(old(self)@) is FetchArticle,
            ev matches StoreEvent::FetchFailed ==> next_action_spec(old(self)@) is FetchArticle,
        ensures
            match r {
                Ok(done) => on_event_spec(old(self)@, ev@) matches Ok(p) && p.0 == final(self)@
                    && p.1 == done && final(self)@.wf(),
                Err(e) => on_event_spec(old(self)@, ev@) == Err::<
                    (DownloaderModel, bool),
                    FileDownloadError,
                >(e) && final(self)@ == old(self)@,
            },
    {
        match ev {
            StoreEvent::SelectOk => {
                self.selected = Some(self.group_idx);
                Ok(false)
            },
            StoreEvent::SelectFailed => Err(FileDownloadError::GroupSelectFailed),
            StoreEvent::FetchOk { body } => {
                let total = self.file.segments.len();
                proof {
                    assert(next_action_spec(old(self)@) is FetchArticle);
                    assert(old(self)@.seg_idx < old(self)@.file.segments.len());
                }
                match extract_and_decode(body.as_slice()) {
                    Ok(bytes) => {
                        let ghost pre = self@;
                        self.output.push(bytes);
                        self.seg_idx = self.seg_idx + 1;
                        self.group_idx = 0;
                        proof {
                            assert(self@.output =~~= pre.output.push(
                                extract_and_decode_spec(body@).unwrap(),
                            ));
                        }
                        Ok(self.seg_idx == total)
                    },
                    Err(e) => Err(FileDownloadError::Decode(e)),
                }
            },
            StoreEvent::FetchFailed => {
                let ngroups = self.file.groups.len();
                proof {
                    assert(old(self)@.group_idx < old(self)@.file.groups.len());
                }
                if self.group_idx + 1 >= ngroups {
                    Err(FileDownloadError::GroupsExhausted)
                } else {
                    self.group_idx = self.group_idx + 1;
                    Ok(false)
                }
            },
        }
    }

    /// The decoded buffers of the finished file, in segment order, and
    /// its filename. Only a complete file hands its output out.
    pub fn into_output(self) -> (r: (String, Vec<Vec<u8>>))
        requires
            self@.wf(),
            self@.seg_idx == self@.file.segments.len(),
        ensures
            r.0@ == self@.file.filename,
            r.1.deep_view() == self@.output,
            r.1.deep_view().len() == self@.file.segments.len(),
    {
        (self.file.filename, self.output)
    }
}

/// Concatenation of decoded buffers, in the order received.
pub open spec fn concat_spec(bufs: Seq<Seq<u8>>) -> Seq<u8>
    decreases bufs.len(),
{
    if bufs.len() == 0 {
        Seq::empty()
    } else {
        bufs[0] + concat_spec(bufs.skip(1))
    }
}

/// Concatenates a file's decoded buffers in the order received, which is
/// the order in which the segments stood in the document, into the bytes
/// of the output artifact. No re-sort by segment number is applied: the
/// machine fetches in list order, so the received order is the document
/// order, and a document listing segments out of numeric order is
/// reproduced as it stands.
pub fn assemble(buffers: &Vec<Vec<u8>>) -> (out: Vec<u8>)
    ensures
        out@ == concat_spec(buffers.deep_view()),
{
    let ghost whole = buffers.deep_view();
    let mut out: Vec<u8> = Vec::new();
    let n = buffers.len();
    let mut i: usize = 0;
    proof {
        assert(whole.skip(0) =~= whole);
    }
    while i < n
        invariant
            0 <= i <= n == buffers@.len(),
            whole == buffers.deep_view(),
            concat_spec(whole) == out@ + concat_spec(whole.skip(i as int)),
        decreases n - i,
    {
        proof {
            assert(whole.skip(i as int)[0] =~= buffers@[i as int]@);
            assert(whole.skip(i as int).skip(1) =~= whole.skip(i + 1));
        }
        let mut piece = slice_to_vec(buffers[i].as_slice());
        proof {
            assert(out@ + (whole[i as int] + concat_spec(whole.skip(i + 1))) =~= (out@
                + whole[i as int]) + concat_spec(whole.skip(i + 1)));
        }
        out.append(&mut piece);
        i = i + 1;
    }
    proof {
        assert(whole.skip(n as int) =~= Seq::<Seq<u8>>::empty());
        assert(out@ + Seq::<u8>::empty() =~= out@);
    }
    out
}

} // verus!
