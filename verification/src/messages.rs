//! Extracting the key data of DDEX messages: the ISRC, the release's GRid
//! and the IPFS CID of the release image.

use vstd::prelude::*;
use vstd::string::*;
use vstd::utf8::{decode_utf8, valid_utf8};
use crate::errors::{OwValidatorNodeError, ValidatorErrorView};
use crate::text::string_from_utf8;
use crate::xml::{read_xml_events, xml_events, XmlEvent, XmlEventView, events_view};

verus! {

/// The start tag and end tag name `ISRC`.
pub open spec fn isrc_tag() -> Seq<u8> {
    seq![73u8, 83u8, 82u8, 67u8]
}

/// The tag name `GRid`.
pub open spec fn grid_tag() -> Seq<u8> {
    seq![71u8, 82u8, 105u8, 100u8]
}

/// The tag name `ImageIpfsCid`.
pub open spec fn image_cid_tag() -> Seq<u8> {
    seq![73u8, 109u8, 97u8, 103u8, 101u8, 73u8, 112u8, 102u8, 115u8, 67u8, 105u8, 100u8]
}

/// Whether `b` holds exactly the bytes of `t`.
pub fn bytes_equal(b: &[u8], t: &[u8]) -> (r: bool)
    ensures
        r == (b@ == t@),
{
    if b.len() != t.len() {
        return false;
    }
    let mut i: usize = 0;
    while i < b.len()
        invariant
            b@.len() == t@.len(),
            i <= b@.len(),
            forall|j: int| 0 <= j < i ==> b@[j] == t@[j],
        decreases b@.len() - i,
    {
        if b[i] != t[i] {
            return false;
        }
        i = i + 1;
    }
    assert(b@ =~= t@);
    true
}

fn is_isrc_tag(b: &[u8]) -> (r: bool)
    ensures
        r == (b@ == isrc_tag()),
{
    let t: [u8; 4] = [73u8, 83u8, 82u8, 67u8];
    assert(t@ =~= isrc_tag());
    bytes_equal(b, t.as_slice())
}

fn is_grid_tag(b: &[u8]) -> (r: bool)
    ensures
        r == (b@ == grid_tag()),
{
    let t: [u8; 4] = [71u8, 82u8, 105u8, 100u8];
    assert(t@ =~= grid_tag());
    bytes_equal(b, t.as_slice())
}

/// Whether `b` is the tag name `ImageIpfsCid`.
pub fn is_image_cid_tag(b: &[u8]) -> (r: bool)
    ensures
        r == (b@ == image_cid_tag()),
{
    let t: [u8; 12] = [73u8, 109u8, 97u8, 103u8, 101u8, 73u8, 112u8, 102u8, 115u8, 67u8, 105u8, 100u8];
    assert(t@ =~= image_cid_tag());
    bytes_equal(b, t.as_slice())
}

/// What the reader has seen: inside which of the three tags it is, and the
/// last text read inside each.
pub struct TagState {
    pub inside_isrc: bool,
    pub inside_release: bool,
    pub inside_image: bool,
    pub isrc: Seq<char>,
    pub release: Seq<char>,
    pub image: Seq<char>,
}

/// The state before the first message.
pub open spec fn initial_tag_state() -> TagState {
    TagState {
        inside_isrc: false,
        inside_release: false,
        inside_image: false,
        isrc: seq![],
        release: seq![],
        image: seq![],
    }
}

/// One event: a start tag `ISRC`, `GRid` or `ImageIpfsCid` (with no
/// attributes) enters it and the matching end tag leaves it; a text node
/// read inside one of them (the first that holds, in that order) replaces
/// its value, and must be UTF-8 (`None` otherwise); all else is ignored.
pub open spec fn tag_step(s: TagState, e: XmlEventView) -> Option<TagState> {
    match e {
        XmlEventView::Start(b) => Some(
            if b == isrc_tag() {
                TagState { inside_isrc: true, ..s }
            } else if b == grid_tag() {
                TagState { inside_release: true, ..s }
            } else if b == image_cid_tag() {
                TagState { inside_image: true, ..s }
            } else {
                s
            },
        ),
        XmlEventView::Text(b) => if !(s.inside_isrc || s.inside_release || s.inside_image) {
            Some(s)
        } else if !valid_utf8(b) {
            None
        } else if s.inside_isrc {
            Some(TagState { isrc: decode_utf8(b), ..s })
        } else if s.inside_release {
            Some(TagState { release: decode_utf8(b), ..s })
        } else {
            Some(TagState { image: decode_utf8(b), ..s })
        },
        XmlEventView::End(b) => Some(
            if b == isrc_tag() {
                TagState { inside_isrc: false, ..s }
            } else if b == grid_tag() {
                TagState { inside_release: false, ..s }
            } else if b == image_cid_tag() {
                TagState { inside_image: false, ..s }
            } else {
                s
            },
        ),
        XmlEventView::Other => Some(s),
    }
}

/// The first `n` events, one after the other.
pub open spec fn tag_run(s: TagState, events: Seq<XmlEventView>, n: nat) -> Option<TagState>
    decreases n,
{
    if n == 0 {
        Some(s)
    } else {
        match tag_run(s, events, (n - 1) as nat) {
            None => None,
            Some(t) => tag_step(t, events[n - 1]),
        }
    }
}

/// The key data of one message: its ISRC, its release's GRid and the CID of
/// its image.
pub struct MessageRecord {
    pub isrc: Seq<char>,
    pub release_id: Seq<char>,
    pub image_ipfs_cid: Seq<char>,
}

/// Why extraction failed: a text node inside a tag was not UTF-8, or the
/// reader reported an error.
pub enum ExtractFailure {
    InvalidUtf8,
    InvalidXml,
}

/// The state of extraction after some messages: the records so far and the
/// reader's state.
pub type ExtractState = Result<(Seq<MessageRecord>, TagState), ExtractFailure>;

/// One message: its events are read; the message yields a record of the
/// values then held; the ISRC and GRid values start empty for the next
/// message, while the CID and the position inside tags carry over.
pub open spec fn message_step(state: ExtractState, msg: Seq<u8>) -> ExtractState {
    match state {
        Err(f) => Err(f),
        Ok((records, s)) => {
            let (events, complete) = xml_events(msg);
            match tag_run(s, events, events.len()) {
                None => Err(ExtractFailure::InvalidUtf8),
                Some(t) => if !complete {
                    Err(ExtractFailure::InvalidXml)
                } else {
                    Ok((
                        records.push(MessageRecord { isrc: t.isrc, release_id: t.release, image_ipfs_cid: t.image }),
                        TagState { isrc: seq![], release: seq![], ..t },
                    ))
                },
            }
        },
    }
}

/// The first `n` messages, one after the other.
pub open spec fn extract_run(msgs: Seq<Seq<u8>>, n: nat) -> ExtractState
    decreases n,
{
    if n == 0 {
        Ok((seq![], initial_tag_state()))
    } else {
        message_step(extract_run(msgs, (n - 1) as nat), msgs[n - 1])
    }
}

/// The data that a DDEX message contributes to the sequencer.
pub struct DdexMessageData {
    pub isrc: String,
    pub release_id: String,
}

/// The key data extracted from one message.
pub struct ExtractedMessageData {
    pub emittable_data: DdexMessageData,
    pub image_ipfs_cid: String,
}

impl View for ExtractedMessageData {
    type V = MessageRecord;

    open spec fn view(&self) -> MessageRecord {
        MessageRecord {
            isrc: self.emittable_data.isrc@,
            release_id: self.emittable_data.release_id@,
            image_ipfs_cid: self.image_ipfs_cid@,
        }
    }
}

/// Why extraction failed: a text node inside a tag that is not UTF-8, or an
/// XML error, which is reported as `InvalidHexStringValue("duer")`.
#[derive(Debug)]
pub enum MessageDataError {
    InvalidUtf8,
    InvalidXml(OwValidatorNodeError),
}

proof fn lemma_tag_run_none_stays(s: TagState, events: Seq<XmlEventView>, m: nat, n: nat)
    requires
        m <= n,
        tag_run(s, events, m) is None,
    ensures
        tag_run(s, events, n) is None,
    decreases n - m,
{
    if m < n {
        lemma_tag_run_none_stays(s, events, m, (n - 1) as nat);
    }
}

proof fn lemma_extract_run_error_stays(msgs: Seq<Seq<u8>>, m: nat, n: nat)
    requires
        m <= n,
        extract_run(msgs, m) is Err,
    ensures
        extract_run(msgs, n) == extract_run(msgs, m),
    decreases n - m,
{
    if m < n {
        lemma_extract_run_error_stays(msgs, m, (n - 1) as nat);
    }
}

/// The messages' bytes, each as its view.
pub open spec fn messages_view(msgs: Seq<Vec<u8>>) -> Seq<Seq<u8>> {
    msgs.map_values(|m: Vec<u8>| m@)
}

/// Reads each decoded message in turn and extracts its ISRC, GRid and image
/// CID, as [`extract_run`] describes.
pub fn extract_message_data(decoded_blob: &Vec<Vec<u8>>)
    -> (res: Result<Vec<ExtractedMessageData>, MessageDataError>)
    ensures
        ({
            let spec_res = extract_run(messages_view(decoded_blob@), decoded_blob@.len() as nat);
            match res {
                Ok(v) => spec_res matches Ok((records, _))
                    && v@.len() == records.len()
                    && forall|j: int| 0 <= j < records.len() ==> #[trigger] v@[j]@ == records[j],
                Err(MessageDataError::InvalidUtf8) => spec_res == Err::<(Seq<MessageRecord>, TagState), ExtractFailure>(ExtractFailure::InvalidUtf8),
                Err(MessageDataError::InvalidXml(e)) => spec_res == Err::<(Seq<MessageRecord>, TagState), ExtractFailure>(ExtractFailure::InvalidXml)
                    && e@ == ValidatorErrorView::InvalidHexStringValue("duer"@),
            }
        }),
{
    let ghost msgs = messages_view(decoded_blob@);
    let mut result: Vec<ExtractedMessageData> = Vec::new();
    let mut inside_isrc_tag = false;
    let mut inside_release_id_tag = false;
    let mut inside_image_file_cid_tag = false;
    let mut isrc_tag_value = String::new();
    let mut release_id_tag_value = String::new();
    let mut image_file_cid_value = String::new();
    let n = decoded_blob.len();
    let mut m: usize = 0;
    while m < n
        invariant
            n == decoded_blob@.len(),
            m <= n,
            msgs == messages_view(decoded_blob@),
            ({
                let st = TagState {
                    inside_isrc: inside_isrc_tag,
                    inside_release: inside_release_id_tag,
                    inside_image: inside_image_file_cid_tag,
                    isrc: isrc_tag_value@,
                    release: release_id_tag_value@,
                    image: image_file_cid_value@,
                };
                extract_run(msgs, m as nat) matches Ok((records, s))
                    && s == st
                    && result@.len() == records.len()
                    && forall|j: int| 0 <= j < records.len() ==> #[trigger] result@[j]@ == records[j]
            }),
        decreases n - m,
    {
        let ghost start = TagState {
            inside_isrc: inside_isrc_tag,
            inside_release: inside_release_id_tag,
            inside_image: inside_image_file_cid_tag,
            isrc: isrc_tag_value@,
            release: release_id_tag_value@,
            image: image_file_cid_value@,
        };
        let ghost prev_records = extract_run(msgs, m as nat)->Ok_0.0;
        assert(msgs[m as int] == decoded_blob@[m as int]@);
        let readout = read_xml_events(decoded_blob[m].as_slice());
        let ghost events = events_view(readout.events@);
        let k = readout.events.len();
        let mut i: usize = 0;
        while i < k
            invariant
                m < n,
                n == decoded_blob@.len(),
                msgs == messages_view(decoded_blob@),
                extract_run(msgs, m as nat) == Ok::<(Seq<MessageRecord>, TagState), ExtractFailure>((prev_records, start)),
                xml_events(msgs[m as int]) == (events, readout.complete),
                k == readout.events@.len(),
                events == events_view(readout.events@),
                i <= k,
                tag_run(start, events, i as nat) == Some(TagState {
                    inside_isrc: inside_isrc_tag,
                    inside_release: inside_release_id_tag,
                    inside_image: inside_image_file_cid_tag,
                    isrc: isrc_tag_value@,
                    release: release_id_tag_value@,
                    image: image_file_cid_value@,
                }),
            decreases k - i,
        {
            assert(events[i as int] == readout.events@[i as int]@);
            match &readout.events[i] {
                XmlEvent::Start(b) => {
                    if is_isrc_tag(b.as_slice()) {
                        inside_isrc_tag = true;
                    } else if is_grid_tag(b.as_slice()) {
                        inside_release_id_tag = true;
                    } else if is_image_cid_tag(b.as_slice()) {
                        inside_image_file_cid_tag = true;
                    }
                },
                XmlEvent::Text(b) => {
                    if inside_isrc_tag || inside_release_id_tag || inside_image_file_cid_tag {
                        match string_from_utf8(b.clone()) {
                            None => {
                                proof {
                                    lemma_tag_run_none_stays(start, events, (i + 1) as nat, k as nat);
                                    lemma_extract_run_error_stays(msgs, (m + 1) as nat, n as nat);
                                }
                                return Err(MessageDataError::InvalidUtf8);
                            },
                            Some(value) => {
                                if inside_isrc_tag {
                                    isrc_tag_value = value;
                                } else if inside_release_id_tag {
                                    release_id_tag_value = value;
                                } else {
                                    image_file_cid_value = value;
                                }
                            },
                        }
                    }
                },
                XmlEvent::End(b) => {
                    if is_isrc_tag(b.as_slice()) {
                        inside_isrc_tag = false;
                    } else if is_grid_tag(b.as_slice()) {
                        inside_release_id_tag = false;
                    } else if is_image_cid_tag(b.as_slice()) {
                        inside_image_file_cid_tag = false;
                    }
                },
                XmlEvent::Other => {},
            }
            i = i + 1;
        }
        if !readout.complete {
            proof {
                lemma_extract_run_error_stays(msgs, (m + 1) as nat, n as nat);
            }
            return Err(MessageDataError::InvalidXml(
                OwValidatorNodeError::InvalidHexStringValue(String::from_str("duer")),
            ));
        }
        let record = ExtractedMessageData {
            emittable_data: DdexMessageData {
                isrc: isrc_tag_value.clone(),
                release_id: release_id_tag_value.clone(),
            },
            image_ipfs_cid: image_file_cid_value.clone(),
        };
        result.push(record);
        isrc_tag_value = String::new();
        release_id_tag_value = String::new();
        m = m + 1;
    }
    Ok(result)
}

/// The ISRC and GRid of each record, in order.
pub open spec fn record_ids(records: Seq<MessageRecord>) -> Seq<(Seq<char>, Seq<char>)> {
    records.map_values(|r: MessageRecord| (r.isrc, r.release_id))
}

/// Two reader states that agree on all but the image CID.
pub open spec fn agree_but_image(s: TagState, t: TagState) -> bool {
    &&& s.inside_isrc == t.inside_isrc
    &&& s.inside_release == t.inside_release
    &&& s.inside_image == t.inside_image
    &&& s.isrc == t.isrc
    &&& s.release == t.release
}

/// Extraction of the first `n` messages, starting from `init`.
pub open spec fn extract_from(init: ExtractState, msgs: Seq<Seq<u8>>, n: nat) -> ExtractState
    decreases n,
{
    if n == 0 {
        init
    } else {
        message_step(extract_from(init, msgs, (n - 1) as nat), msgs[n - 1])
    }
}

/// Two extraction states that fail alike, or that both go on, with records
/// whose ids are those of `before` followed by the other's, and reader
/// states that agree on all but the image CID.
pub open spec fn corresponds(x: ExtractState, y: ExtractState, before: Seq<MessageRecord>) -> bool {
    match x {
        Err(f) => y == Err::<(Seq<MessageRecord>, TagState), ExtractFailure>(f),
        Ok((rx, sx)) => y matches Ok((ry, sy))
            && record_ids(rx) == record_ids(before) + record_ids(ry)
            && agree_but_image(sx, sy),
    }
}

proof fn lemma_tag_run_agree(s: TagState, t: TagState, events: Seq<XmlEventView>, n: nat)
    requires
        agree_but_image(s, t),
    ensures
        tag_run(s, events, n) is None <==> tag_run(t, events, n) is None,
        tag_run(s, events, n) is Some ==> agree_but_image(tag_run(s, events, n)->0, tag_run(t, events, n)->0),
    decreases n,
{
    if n > 0 {
        lemma_tag_run_agree(s, t, events, (n - 1) as nat);
    }
}

proof fn lemma_message_step_corresponds(x: ExtractState, y: ExtractState, before: Seq<MessageRecord>, msg: Seq<u8>)
    requires
        corresponds(x, y, before),
    ensures
        corresponds(message_step(x, msg), message_step(y, msg), before),
{
    if let Ok((rx, sx)) = x {
        let (ry, sy) = y->Ok_0;
        let (events, complete) = xml_events(msg);
        lemma_tag_run_agree(sx, sy, events, events.len());
        if let Some(tx) = tag_run(sx, events, events.len()) {
            let ty = tag_run(sy, events, events.len())->0;
            if complete {
                let recx = MessageRecord { isrc: tx.isrc, release_id: tx.release, image_ipfs_cid: tx.image };
                let recy = MessageRecord { isrc: ty.isrc, release_id: ty.release, image_ipfs_cid: ty.image };
                assert(record_ids(rx.push(recx)) =~= record_ids(rx).push((tx.isrc, tx.release)));
                assert(record_ids(ry.push(recy)) =~= record_ids(ry).push((ty.isrc, ty.release)));
                assert(record_ids(rx.push(recx)) =~= record_ids(before) + record_ids(ry.push(recy)));
            }
        }
    }
}

proof fn lemma_extract_from_corresponds(x: ExtractState, y: ExtractState, before: Seq<MessageRecord>, msgs: Seq<Seq<u8>>, n: nat)
    requires
        corresponds(x, y, before),
    ensures
        corresponds(extract_from(x, msgs, n), extract_from(y, msgs, n), before),
    decreases n,
{
    if n > 0 {
        lemma_extract_from_corresponds(x, y, before, msgs, (n - 1) as nat);
        lemma_message_step_corresponds(
            extract_from(x, msgs, (n - 1) as nat), extract_from(y, msgs, (n - 1) as nat), before, msgs[n - 1]);
    }
}

proof fn lemma_extract_run_from(msgs: Seq<Seq<u8>>, n: nat)
    ensures
        extract_run(msgs, n) == extract_from(Ok((seq![], initial_tag_state())), msgs, n),
    decreases n,
{
    if n > 0 {
        lemma_extract_run_from(msgs, (n - 1) as nat);
    }
}

proof fn lemma_extract_run_prefix(a: Seq<Seq<u8>>, b: Seq<Seq<u8>>, n: nat)
    requires
        n <= a.len(),
    ensures
        extract_run(a + b, n) == extract_run(a, n),
    decreases n,
{
    if n > 0 {
        lemma_extract_run_prefix(a, b, (n - 1) as nat);
        assert((a + b)[n - 1] == a[n - 1]);
    }
}

proof fn lemma_extract_run_concat(a: Seq<Seq<u8>>, b: Seq<Seq<u8>>, k: nat)
    requires
        k <= b.len(),
    ensures
        extract_run(a + b, a.len() + k) == extract_from(extract_run(a, a.len()), b, k),
    decreases k,
{
    if k == 0 {
        lemma_extract_run_prefix(a, b, a.len());
    } else {
        lemma_extract_run_concat(a, b, (k - 1) as nat);
        assert((a + b)[a.len() + k - 1] == b[k - 1]);
    }
}

/// Law: extracting from two lists of messages, one after the other. When
/// extraction from the first list succeeds and leaves no `ISRC`, `GRid` or
/// `ImageIpfsCid` tag open, extraction from the joined list fails as
/// extraction from the second list alone does, or succeeds as it does; then
/// the ISRC and GRid of its records are those of the first list followed by
/// those of the second.
pub proof fn law_extract_concat(a: Seq<Seq<u8>>, b: Seq<Seq<u8>>)
    requires
        extract_run(a, a.len()) matches Ok((_, s))
            && !s.inside_isrc && !s.inside_release && !s.inside_image,
    ensures
        extract_run(b, b.len()) is Err ==> extract_run(a + b, (a + b).len()) == extract_run(b, b.len()),
        extract_run(b, b.len()) is Ok ==> extract_run(a + b, (a + b).len()) is Ok
            && record_ids(extract_run(a + b, (a + b).len())->Ok_0.0)
                == record_ids(extract_run(a, a.len())->Ok_0.0) + record_ids(extract_run(b, b.len())->Ok_0.0),
{
    let (ra, sa) = extract_run(a, a.len())->Ok_0;
    if a.len() > 0 {
        assert(sa.isrc == Seq::<char>::empty() && sa.release == Seq::<char>::empty());
    }
    let init: ExtractState = Ok((seq![], initial_tag_state()));
    assert(record_ids(seq![]) =~= Seq::<(Seq<char>, Seq<char>)>::empty());
    assert(record_ids(ra) =~= record_ids(ra) + record_ids(seq![]));
    assert(corresponds(extract_run(a, a.len()), init, ra));
    lemma_extract_from_corresponds(extract_run(a, a.len()), init, ra, b, b.len());
    lemma_extract_run_concat(a, b, b.len());
    lemma_extract_run_from(b, b.len());
}

/// No `ISRC`, `GRid` or `ImageIpfsCid` tag is open.
pub open spec fn outside_tags(s: TagState) -> bool {
    !s.inside_isrc && !s.inside_release && !s.inside_image
}

/// Whether an event opens one of the `ISRC`, `GRid` and `ImageIpfsCid`
/// tags.
pub open spec fn opens_tag(e: XmlEventView) -> bool {
    e matches XmlEventView::Start(b) && (b == isrc_tag() || b == grid_tag() || b == image_cid_tag())
}

proof fn lemma_tag_run_prefix(s: TagState, a: Seq<XmlEventView>, b: Seq<XmlEventView>, n: nat)
    requires
        n <= a.len(),
    ensures
        tag_run(s, a + b, n) == tag_run(s, a, n),
    decreases n,
{
    if n > 0 {
        lemma_tag_run_prefix(s, a, b, (n - 1) as nat);
        assert((a + b)[n - 1] == a[n - 1]);
    }
}

proof fn lemma_tag_run_concat(s: TagState, a: Seq<XmlEventView>, b: Seq<XmlEventView>, k: nat)
    requires
        k <= b.len(),
    ensures
        tag_run(s, a + b, a.len() + k) == match tag_run(s, a, a.len()) {
            None => None,
            Some(t) => tag_run(t, b, k),
        },
    decreases k,
{
    if k == 0 {
        lemma_tag_run_prefix(s, a, b, a.len());
    } else {
        lemma_tag_run_concat(s, a, b, (k - 1) as nat);
        assert((a + b)[a.len() + k - 1] == b[k - 1]);
    }
}

/// Law: outside the three tags, nothing but opening one of them changes
/// what is extracted. From a state with no tag open, a run of events none
/// of which opens `ISRC`, `GRid` or `ImageIpfsCid` (text, other tags, end
/// tags) leaves the state as it was.
pub proof fn law_outside_events_ignored(s: TagState, events: Seq<XmlEventView>)
    requires
        outside_tags(s),
        forall|j: int| 0 <= j < events.len() ==> !opens_tag(#[trigger] events[j]),
    ensures
        tag_run(s, events, events.len()) == Some(s),
{
    lemma_outside_run(s, events, events.len());
}

proof fn lemma_outside_run(s: TagState, events: Seq<XmlEventView>, n: nat)
    requires
        n <= events.len(),
        outside_tags(s),
        forall|j: int| 0 <= j < events.len() ==> !opens_tag(#[trigger] events[j]),
    ensures
        tag_run(s, events, n) == Some(s),
    decreases n,
{
    if n > 0 {
        lemma_outside_run(s, events, (n - 1) as nat);
        assert(!opens_tag(events[n - 1]));
    }
}

/// Law: an element encloses its text. From a state with no tag open, the
/// start tag of `ISRC`, `GRid` or `ImageIpfsCid`, a UTF-8 text node and the
/// matching end tag leave no tag open and set that tag's value to the text,
/// the other values unchanged.
pub proof fn law_element_sets_value(s: TagState, name: Seq<u8>, t: Seq<u8>)
    requires
        outside_tags(s),
        name == isrc_tag() || name == grid_tag() || name == image_cid_tag(),
        valid_utf8(t),
    ensures
        tag_run(s, seq![XmlEventView::Start(name), XmlEventView::Text(t), XmlEventView::End(name)], 3)
            == Some(if name == isrc_tag() {
                TagState { isrc: decode_utf8(t), ..s }
            } else if name == grid_tag() {
                TagState { release: decode_utf8(t), ..s }
            } else {
                TagState { image: decode_utf8(t), ..s }
            }),
{
    let ev = seq![XmlEventView::Start(name), XmlEventView::Text(t), XmlEventView::End(name)];
    assert(ev[0] == XmlEventView::Start(name));
    assert(ev[1] == XmlEventView::Text(t));
    assert(ev[2] == XmlEventView::End(name));
    assert(isrc_tag() != grid_tag());
    assert(isrc_tag() != image_cid_tag());
    assert(grid_tag() != image_cid_tag());
    assert(tag_run(s, ev, 0) == Some(s));
    let s_open = if name == isrc_tag() {
        TagState { inside_isrc: true, ..s }
    } else if name == grid_tag() {
        TagState { inside_release: true, ..s }
    } else {
        TagState { inside_image: true, ..s }
    };
    assert(tag_run(s, ev, 1) == Some(s_open));
    let s_text = if name == isrc_tag() {
        TagState { inside_isrc: true, isrc: decode_utf8(t), ..s }
    } else if name == grid_tag() {
        TagState { inside_release: true, release: decode_utf8(t), ..s }
    } else {
        TagState { inside_image: true, image: decode_utf8(t), ..s }
    };
    assert(tag_run(s, ev, 2) == Some(s_text));
}

/// Law: the image CID of a message is the text of its `ImageIpfsCid`
/// element. When, from a state with no tag open, the events are some
/// events that leave no tag open, then `<ImageIpfsCid>` `t` `</ImageIpfsCid>`,
/// then events none of which opens `ISRC`, `GRid` or `ImageIpfsCid`, the
/// state at the end has no tag open and holds `t` as the image CID, the ISRC
/// and GRid being those before the element.
pub proof fn law_image_cid_kept(s: TagState, pre: Seq<XmlEventView>, t: Seq<u8>, post: Seq<XmlEventView>)
    requires
        tag_run(s, pre, pre.len()) matches Some(s1) && outside_tags(s1),
        valid_utf8(t),
        forall|j: int| 0 <= j < post.len() ==> !opens_tag(#[trigger] post[j]),
    ensures
        ({
            let mid = seq![XmlEventView::Start(image_cid_tag()), XmlEventView::Text(t), XmlEventView::End(image_cid_tag())];
            let s1 = tag_run(s, pre, pre.len())->0;
            tag_run(s, pre + mid + post, (pre + mid + post).len()) == Some(TagState { image: decode_utf8(t), ..s1 })
        }),
{
    let mid = seq![XmlEventView::Start(image_cid_tag()), XmlEventView::Text(t), XmlEventView::End(image_cid_tag())];
    let s1 = tag_run(s, pre, pre.len())->0;
    let s2 = TagState { image: decode_utf8(t), ..s1 };
    law_element_sets_value(s1, image_cid_tag(), t);
    lemma_tag_run_concat(s, pre, mid, mid.len());
    law_outside_events_ignored(s2, post);
    lemma_tag_run_concat(s, pre + mid, post, post.len());
}

/// Law: what a message yields, lifted to extraction. When extraction of the
/// earlier messages succeeded with no tag left open, and the next message is
/// read completely with the events of [`law_image_cid_kept`], its record
/// holds `t` as image CID, the ISRC and GRid that the events before the
/// element gave.
pub proof fn law_extract_image_cid(msgs: Seq<Seq<u8>>, n: nat, pre: Seq<XmlEventView>, t: Seq<u8>, post: Seq<XmlEventView>)
    requires
        n < msgs.len(),
        extract_run(msgs, n) matches Ok((_, s)) && (tag_run(s, pre, pre.len()) matches Some(s1) && outside_tags(s1)),
        valid_utf8(t),
        forall|j: int| 0 <= j < post.len() ==> !opens_tag(#[trigger] post[j]),
        xml_events(msgs[n as int]) == (pre + seq![XmlEventView::Start(image_cid_tag()), XmlEventView::Text(t),
            XmlEventView::End(image_cid_tag())] + post, true),
    ensures
        ({
            let (r, s) = extract_run(msgs, n)->Ok_0;
            let s1 = tag_run(s, pre, pre.len())->0;
            extract_run(msgs, n + 1) matches Ok((r2, _))
                && r2 == r.push(MessageRecord { isrc: s1.isrc, release_id: s1.release, image_ipfs_cid: decode_utf8(t) })
        }),
{
    let (r, s) = extract_run(msgs, n)->Ok_0;
    law_image_cid_kept(s, pre, t, post);
}

} // verus!
