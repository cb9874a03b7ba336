//! Trackers: which one to ask, what they are asked with, and what they answer.
use crate::address::PeerAddress;
use crate::metainfo::{text_of, texts_of, MetaInfo};
use vstd::prelude::*;
use vstd::string::{StrSliceExecFns, StringExecFns};

verus! {

/// What this client announces to a tracker.
#[derive(Debug, Clone, Copy, PartialEq, Eq, Structural)]
pub enum TrackerEvent {
    Started,
    Stopped,
    Completed,
}

/// The name of an event in a query.
pub open spec fn event_name(event: TrackerEvent) -> Seq<char> {
    match event {
        TrackerEvent::Started => "started"@,
        TrackerEvent::Stopped => "stopped"@,
        TrackerEvent::Completed => "completed"@,
    }
}

/// The number of an event in a datagram.
pub open spec fn event_code(event: Option<TrackerEvent>) -> u32 {
    match event {
        None => 0,
        Some(TrackerEvent::Completed) => 1,
        Some(TrackerEvent::Started) => 2,
        Some(TrackerEvent::Stopped) => 3,
    }
}

impl TrackerEvent {
    /// The name of the event in a query.
    pub fn to_string(&self) -> (name: String)
        ensures
            name@ == event_name(*self),
    {
        match self {
            TrackerEvent::Started => "started".to_owned(),
            TrackerEvent::Stopped => "stopped".to_owned(),
            TrackerEvent::Completed => "completed".to_owned(),
        }
    }
}

/// The number of an event in a datagram.
pub fn event_number(event: Option<TrackerEvent>) -> (code: u32)
    ensures
        code == event_code(event),
{
    match event {
        None => 0,
        Some(TrackerEvent::Completed) => 1,
        Some(TrackerEvent::Started) => 2,
        Some(TrackerEvent::Stopped) => 3,
    }
}

/// What a tracker answers.
#[derive(Debug)]
pub struct TrackerResponse {
    pub warning_message: Option<String>,
    /// Seconds until the tracker is to be asked again.
    pub interval: u32,
    pub min_interval: Option<u32>,
    pub tracker_id: Option<String>,
    pub complete: u32,
    pub incomplete: u32,
    /// The addresses of peers.
    pub peer_info: Vec<PeerAddress>,
}

/// What a [`TrackerResponse`] stands for.
#[verifier::ext_equal]
pub struct ResponseView {
    pub warning_message: Option<Seq<char>>,
    pub interval: u32,
    pub min_interval: Option<u32>,
    pub tracker_id: Option<Seq<char>>,
    pub complete: u32,
    pub incomplete: u32,
    pub peer_info: Seq<PeerAddress>,
}

impl View for TrackerResponse {
    type V = ResponseView;

    open spec fn view(&self) -> ResponseView {
        ResponseView {
            warning_message: text_of(self.warning_message),
            interval: self.interval,
            min_interval: self.min_interval,
            tracker_id: text_of(self.tracker_id),
            complete: self.complete,
            incomplete: self.incomplete,
            peer_info: self.peer_info@,
        }
    }
}

/// The text of `text`, copied.
pub fn copy_text(text: &Option<String>) -> (copy: Option<String>)
    ensures
        text_of(copy) == text_of(*text),
{
    match text {
        Some(text) => Some(text.clone()),
        None => None,
    }
}

/// Why a tracker gave no answer.
#[derive(Debug)]
pub enum TrackerError {
    /// No tracker answered.
    NoTracker,
    /// The address begins with this, which is no protocol of trackers.
    ProtocolNotSupported(String),
    /// The address has no host and port.
    InvalidAnnounceUrl,
    /// The address is not one of the web.
    InvalidUrl,
    /// Requests cannot be made on this machine.
    NoClient,
    /// The answer is not a bencoded value, for the reason in the text.
    NotBencode(String),
    /// The answer is not a dictionary.
    NotADictionary,
    /// The tracker refused, for the reason in the text.
    Failure(String),
    IntervalMissing,
    CompleteMissing,
    IncompleteMissing,
    PeersMissing,
}

/// What a [`TrackerError`] stands for.
pub enum ErrorView {
    NoTracker,
    ProtocolNotSupported(Seq<char>),
    InvalidAnnounceUrl,
    InvalidUrl,
    NoClient,
    NotBencode(Seq<char>),
    NotADictionary,
    Failure(Seq<char>),
    IntervalMissing,
    CompleteMissing,
    IncompleteMissing,
    PeersMissing,
}

impl View for TrackerError {
    type V = ErrorView;

    open spec fn view(&self) -> ErrorView {
        match self {
            TrackerError::NoTracker => ErrorView::NoTracker,
            TrackerError::ProtocolNotSupported(name) => ErrorView::ProtocolNotSupported(name@),
            TrackerError::InvalidAnnounceUrl => ErrorView::InvalidAnnounceUrl,
            TrackerError::InvalidUrl => ErrorView::InvalidUrl,
            TrackerError::NoClient => ErrorView::NoClient,
            TrackerError::NotBencode(reason) => ErrorView::NotBencode(reason@),
            TrackerError::NotADictionary => ErrorView::NotADictionary,
            TrackerError::Failure(reason) => ErrorView::Failure(reason@),
            TrackerError::IntervalMissing => ErrorView::IntervalMissing,
            TrackerError::CompleteMissing => ErrorView::CompleteMissing,
            TrackerError::IncompleteMissing => ErrorView::IncompleteMissing,
            TrackerError::PeersMissing => ErrorView::PeersMissing,
        }
    }
}

/// The text of an error.
pub open spec fn error_text(error: ErrorView) -> Seq<char> {
    match error {
        ErrorView::NoTracker => "Couldn't request from any tracker"@,
        ErrorView::ProtocolNotSupported(name) => "Tracker protocol not supported: "@ + name,
        ErrorView::InvalidAnnounceUrl => "Invalid announce url"@,
        ErrorView::InvalidUrl => "Invalid tracker url"@,
        ErrorView::NoClient => "Couldn't make a client"@,
        ErrorView::NotBencode(reason) => reason,
        ErrorView::NotADictionary => "Couldn't make dict"@,
        ErrorView::Failure(reason) => reason,
        ErrorView::IntervalMissing => "Interval missing"@,
        ErrorView::CompleteMissing => "Complete missing"@,
        ErrorView::IncompleteMissing => "Complete missing"@,
        ErrorView::PeersMissing => "Incomplete missing"@,
    }
}

impl TrackerError {
    /// The text of the error.
    pub fn message(&self) -> (text: String)
        ensures
            text@ == error_text(self@),
    {
        match self {
            TrackerError::NoTracker => "Couldn't request from any tracker".to_owned(),
            TrackerError::ProtocolNotSupported(name) => {
                "Tracker protocol not supported: ".to_owned().concat(name.as_str())
            },
            TrackerError::InvalidAnnounceUrl => "Invalid announce url".to_owned(),
            TrackerError::InvalidUrl => "Invalid tracker url".to_owned(),
            TrackerError::NoClient => "Couldn't make a client".to_owned(),
            TrackerError::NotBencode(reason) => reason.clone(),
            TrackerError::NotADictionary => "Couldn't make dict".to_owned(),
            TrackerError::Failure(reason) => reason.clone(),
            TrackerError::IntervalMissing => "Interval missing".to_owned(),
            TrackerError::CompleteMissing => "Complete missing".to_owned(),
            TrackerError::IncompleteMissing => "Complete missing".to_owned(),
            TrackerError::PeersMissing => "Incomplete missing".to_owned(),
        }
    }
}

/// The addresses of the trackers of a torrent, in the order in which they are asked.
pub open spec fn urls_of(announce: Seq<char>, announce_list: Option<Seq<Seq<char>>>) -> Seq<
    Seq<char>,
> {
    match announce_list {
        Some(more) => seq![announce] + more,
        None => seq![announce],
    }
}

/// The addresses of the trackers of a torrent, in the order in which they are asked.
pub fn tracker_urls(metainfo: &MetaInfo) -> (urls: Vec<String>)
    ensures
        texts_of(urls@) == urls_of(metainfo@.announce, metainfo@.announce_list),
        urls@.len() >= 1,
{
    let mut urls: Vec<String> = Vec::new();
    urls.push(metainfo.announce.clone());
    let ghost first = texts_of(urls@);
    assert(first =~= seq![metainfo@.announce]);
    match &metainfo.announce_list {
        None => {},
        Some(more) => {
            let n: usize = more.len();
            let mut i: usize = 0;
            assert(texts_of(urls@) =~= first + texts_of(more@).take(0));
            while i < n
                invariant
                    i <= n == more@.len(),
                    urls@.len() == 1 + i,
                    first.len() == 1,
                    texts_of(urls@) == first + texts_of(more@).take(i as int),
                decreases n - i,
            {
                let ghost before = urls@;
                urls.push(more[i].clone());
                i = i + 1;
                proof {
                    assert forall|k: int| 0 <= k < urls@.len() implies texts_of(urls@)[k] == (first
                        + texts_of(more@).take(i as int))[k] by {
                        if k < before.len() {
                            assert(texts_of(urls@)[k] == texts_of(before)[k]);
                            assert(texts_of(before)[k] == (first + texts_of(more@).take(i - 1))[k]);
                        }
                    }
                    assert(texts_of(urls@) =~= first + texts_of(more@).take(i as int));
                }
            }
            assert(texts_of(more@).take(n as int) =~= texts_of(more@));
        },
    }
    urls
}

/// How a tracker is spoken to.
#[derive(Debug, Clone, Copy, PartialEq, Eq, Structural)]
pub enum Protocol {
    Http,
    Udp,
}

/// What stands before the first colon; everything, where there is none.
pub open spec fn before_colon(text: Seq<char>) -> Seq<char>
    decreases text.len(),
{
    if text.len() == 0 || text[0] == ':' {
        Seq::empty()
    } else {
        seq![text[0]] + before_colon(text.skip(1))
    }
}

/// The protocol of a tracker with this address.
pub open spec fn protocol_of(url: Seq<char>) -> Option<Protocol> {
    let name = before_colon(url);
    if name == "http"@ || name == "https"@ {
        Some(Protocol::Http)
    } else if name == "udp"@ {
        Some(Protocol::Udp)
    } else {
        None
    }
}

/// What stands before the first colon.
fn take_protocol(url: &str) -> (name: String)
    ensures
        name@ == before_colon(url@),
{
    let n: usize = url.unicode_len();
    let mut name: String = String::new();
    let mut i: usize = 0;
    assert(url@.skip(0) =~= url@);
    assert(name@ + before_colon(url@) =~= before_colon(url@));
    while i < n
        invariant
            i <= n == url@.len(),
            name@ + before_colon(url@.skip(i as int)) == before_colon(url@),
        decreases n - i,
    {
        let c: char = url.get_char(i);
        let ghost rest = url@.skip(i as int);
        assert(rest[0] == c);
        if c == ':' {
            assert(name@ + Seq::<char>::empty() =~= name@);
            return name;
        }
        let ghost before = name@;
        name.push(c);
        i = i + 1;
        proof {
            assert(rest.skip(1) =~= url@.skip(i as int));
            let more = before_colon(url@.skip(i as int));
            assert(before.push(c) + more =~= before + (seq![c] + more));
        }
    }
    assert(name@ + Seq::<char>::empty() =~= name@);
    name
}

/// How the tracker with this address is spoken to.
pub fn tracker_protocol(url: &str) -> (r: Result<Protocol, TrackerError>)
    ensures
        match r {
            Ok(protocol) => protocol_of(url@) == Some(protocol),
            Err(e) => protocol_of(url@) is None && e@ == ErrorView::ProtocolNotSupported(
                before_colon(url@),
            ),
        },
{
    let name: String = take_protocol(url);
    if name == "http".to_owned() || name == "https".to_owned() {
        Ok(Protocol::Http)
    } else if name == "udp".to_owned() {
        Ok(Protocol::Udp)
    } else {
        Err(TrackerError::ProtocolNotSupported(name))
    }
}

/// The search for a tracker that answers.
pub struct TrackerSearch {
    pub urls: Vec<String>,
    /// Number of trackers that have been asked.
    pub asked: usize,
}

/// What is next in the search for a tracker that answers.
#[derive(Debug)]
pub enum SearchStep {
    /// The tracker with this address is to be asked.
    Ask(String),
    /// A tracker has answered.
    Found(TrackerResponse),
    /// No tracker is left.
    GiveUp(TrackerError),
}

impl TrackerSearch {
    /// No more trackers have been asked than there are.
    pub open spec fn wf(&self) -> bool {
        self.asked <= self.urls@.len()
    }

    /// A search among the trackers of a torrent; none has been asked.
    pub fn new(metainfo: &MetaInfo) -> (search: TrackerSearch)
        ensures
            search.wf(),
            texts_of(search.urls@) == urls_of(metainfo@.announce, metainfo@.announce_list),
            search.asked == 0,
    {
        TrackerSearch { urls: tracker_urls(metainfo), asked: 0 }
    }

    /// What is next, when the tracker that was asked last gave `answer`; before the first is asked
    /// there is no answer. The first answer ends the search; while there is none, the trackers are
    /// asked one after the other.
    pub fn proceed(&mut self, answer: Option<TrackerResponse>) -> (step: SearchStep)
        requires
            old(self).wf(),
        ensures
            final(self).wf(),
            final(self).urls == old(self).urls,
            match answer {
                Some(response) => step == SearchStep::Found(response) && final(self).asked == old(
                    self,
                ).asked,
                None => if old(self).asked < old(self).urls@.len() {
                    &&& step matches SearchStep::Ask(url)
                    &&& url@ == old(self).urls@[old(self).asked as int]@
                    &&& final(self).asked == old(self).asked + 1
                } else {
                    &&& step == SearchStep::GiveUp(TrackerError::NoTracker)
                    &&& final(self).asked == old(self).asked
                },
            },
    {
        match answer {
            Some(response) => SearchStep::Found(response),
            None => {
                if self.asked < self.urls.len() {
                    let url: String = self.urls[self.asked].clone();
                    self.asked = self.asked + 1;
                    SearchStep::Ask(url)
                } else {
                    SearchStep::GiveUp(TrackerError::NoTracker)
                }
            },
        }
    }
}

} // verus!
