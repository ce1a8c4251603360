//! The data provider's decisions: its configuration, which files of an
//! asset folder it uses, and the XML it writes with the image's IPFS CID.

use vstd::prelude::*;
use vstd::string::*;
use vstd::utf8::encode_utf8;
use crate::errors::{OwDataProviderCliError, ProviderErrorView};
use crate::messages::{image_cid_tag, is_image_cid_tag, bytes_equal};
use crate::text::{decimal, push_decimal};
use crate::xml::{
    escape_text, escaped, read_xml_events, write_event, written, xml_events, events_view,
    XmlEvent, XmlEventView,
};

verus! {

/// The directory where the provider writes the XML files it sends.
pub const OUTPUT_FILES_DIR: &'static str = "./output_files";

/// The provider's configuration: the RPC endpoint, the signing key and the
/// folder of asset folders to send.
pub struct Config {
    pub rpc_url: String,
    pub private_key: String,
    pub folder_path: String,
}

/// What [`Config::build`] does: the folder path is the command line's first
/// argument after the program's name; `RPC_URL` and then `PRIVATE_KEY` must
/// be set.
pub open spec fn spec_config(args: Seq<Seq<char>>, rpc_url: Option<Seq<char>>, private_key: Option<Seq<char>>)
    -> Result<(Seq<char>, Seq<char>, Seq<char>), ProviderErrorView>
{
    if args.len() < 2 {
        Err(ProviderErrorView::MissingCliArg("folder path"@))
    } else if rpc_url is None {
        Err(ProviderErrorView::MissingEnvVar("RPC_URL"@))
    } else if private_key is None {
        Err(ProviderErrorView::MissingEnvVar("PRIVATE_KEY"@))
    } else {
        Ok((rpc_url.unwrap(), private_key.unwrap(), args[1]))
    }
}

/// The view of an optional string.
pub open spec fn opt_view(s: Option<String>) -> Option<Seq<char>> {
    match s {
        Some(v) => Some(v@),
        None => None,
    }
}

impl Config {
    /// Builds the configuration from the command line's arguments (the
    /// program's name first) and the values of the environment variables
    /// `RPC_URL` and `PRIVATE_KEY`, as [`spec_config`] describes.
    pub fn build(args: Vec<String>, rpc_url: Option<String>, private_key: Option<String>)
        -> (res: Result<Config, OwDataProviderCliError>)
        ensures
            ({
                let spec_res = spec_config(args@.map_values(|a: String| a@), opt_view(rpc_url), opt_view(private_key));
                match res {
                    Ok(c) => spec_res == Ok::<(Seq<char>, Seq<char>, Seq<char>), ProviderErrorView>(
                        (c.rpc_url@, c.private_key@, c.folder_path@),
                    ),
                    Err(e) => spec_res == Err::<(Seq<char>, Seq<char>, Seq<char>), ProviderErrorView>(e@),
                }
            }),
    {
        let mut args = args;
        if args.len() < 2 {
            return Err(OwDataProviderCliError::MissingCliArg(String::from_str("folder path")));
        }
        let ghost all = args@;
        let folder_path = args.swap_remove(1);
        assert(folder_path == all[1]);
        let rpc_url = match rpc_url {
            Some(v) => v,
            None => return Err(OwDataProviderCliError::MissingEnvVar(String::from_str("RPC_URL"))),
        };
        let private_key = match private_key {
            Some(v) => v,
            None => return Err(OwDataProviderCliError::MissingEnvVar(String::from_str("PRIVATE_KEY"))),
        };
        Ok(Config { rpc_url, private_key, folder_path })
    }
}

/// The kind of a file that `infer` recognises from its first bytes: its MIME
/// type and its usual extension.
pub struct FileKind {
    pub mime_type: String,
    pub extension: String,
}

/// What `infer::get` makes of the first bytes of a file: its MIME type and
/// extension, or `None` when it does not recognise them.
pub uninterp spec fn inferred_kind(header: Seq<u8>) -> Option<(Seq<char>, Seq<char>)>;

/// Calls `infer::get` on the first bytes of a file. Trusted: the result is
/// [`inferred_kind`] of those bytes; nothing more is claimed.
#[verifier::external_body]
fn file_kind(header: &[u8]) -> (kind: Option<FileKind>)
    ensures
        match kind {
            Some(k) => inferred_kind(header@) == Some((k.mime_type@, k.extension@)),
            None => inferred_kind(header@) is None,
        },
{
    match infer::get(header) {
        Some(t) => Some(FileKind { mime_type: t.mime_type().to_string(), extension: t.extension().to_string() }),
        None => None,
    }
}

/// The prefix of an image's MIME type.
pub open spec fn image_mime_prefix() -> Seq<char> {
    seq!['i', 'm', 'a', 'g', 'e', '/']
}

/// The extension `xml`.
pub open spec fn xml_extension() -> Seq<char> {
    seq!['x', 'm', 'l']
}

fn starts_with_image(mime: &str) -> (r: bool)
    ensures
        r == (mime@.len() >= 6 && mime@.take(6) == image_mime_prefix()),
{
    if mime.unicode_len() < 6 {
        return false;
    }
    let r = mime.get_char(0) == 'i' && mime.get_char(1) == 'm' && mime.get_char(2) == 'a'
        && mime.get_char(3) == 'g' && mime.get_char(4) == 'e' && mime.get_char(5) == '/';
    proof {
        if r {
            assert(mime@.take(6) =~= image_mime_prefix());
        } else if mime@.take(6) == image_mime_prefix() {
            assert(mime@[0] == mime@.take(6)[0]);
            assert(mime@[1] == mime@.take(6)[1]);
            assert(mime@[2] == mime@.take(6)[2]);
            assert(mime@[3] == mime@.take(6)[3]);
            assert(mime@[4] == mime@.take(6)[4]);
            assert(mime@[5] == mime@.take(6)[5]);
        }
    }
    r
}

fn is_xml_extension(ext: &str) -> (r: bool)
    ensures
        r == (ext@ == xml_extension()),
{
    if ext.unicode_len() != 3 {
        return false;
    }
    let r = ext.get_char(0) == 'x' && ext.get_char(1) == 'm' && ext.get_char(2) == 'l';
    if r {
        assert(ext@ =~= xml_extension());
    }
    r
}

/// What the provider has gathered from one asset folder.
#[derive(Debug)]
pub struct AssetDirProcessingContext {
    pub input_xml_path: String,
    pub input_image_path: String,
    pub image_cid: String,
    pub output_xml_path: String,
    pub empty: bool,
}

/// An [`AssetDirProcessingContext`] as a mathematical value.
pub struct AssetContextView {
    pub input_xml_path: Seq<char>,
    pub input_image_path: Seq<char>,
    pub image_cid: Seq<char>,
    pub output_xml_path: Seq<char>,
    pub empty: bool,
}

impl View for AssetDirProcessingContext {
    type V = AssetContextView;

    open spec fn view(&self) -> AssetContextView {
        AssetContextView {
            input_xml_path: self.input_xml_path@,
            input_image_path: self.input_image_path@,
            image_cid: self.image_cid@,
            output_xml_path: self.output_xml_path@,
            empty: self.empty,
        }
    }
}

/// What a file of the folder changes: an image (by its MIME type) becomes
/// the image to pin, and an XML file (by its extension) the message; a file
/// that `infer` does not recognise changes nothing.
pub open spec fn spec_observe(c: AssetContextView, path: Seq<char>, kind: Option<(Seq<char>, Seq<char>)>)
    -> AssetContextView
{
    match kind {
        None => c,
        Some((mime, ext)) => {
            let c1 = if mime.len() >= 6 && mime.take(6) == image_mime_prefix() {
                AssetContextView { input_image_path: path, ..c }
            } else {
                c
            };
            if ext == xml_extension() {
                AssetContextView { input_xml_path: path, ..c1 }
            } else {
                c1
            }
        },
    }
}

/// The path of the output file for the folder at `index`.
pub open spec fn output_path(index: usize) -> Seq<char> {
    OUTPUT_FILES_DIR@ + "/"@ + decimal(index as nat) + ".xml"@
}

impl AssetDirProcessingContext {
    /// A context with nothing gathered yet.
    pub fn new() -> (c: Self)
        ensures
            c@ == (AssetContextView {
                input_xml_path: seq![],
                input_image_path: seq![],
                image_cid: seq![],
                output_xml_path: seq![],
                empty: true,
            }),
    {
        AssetDirProcessingContext {
            input_xml_path: String::new(),
            input_image_path: String::new(),
            image_cid: String::new(),
            output_xml_path: String::new(),
            empty: true,
        }
    }

    /// Takes in one file of the folder (not a directory), given its path and
    /// first bytes, as [`spec_observe`] describes. Returns whether the file
    /// is an image, which the caller then pins to IPFS and records with
    /// [`Self::record_image_cid`].
    pub fn observe_file(&mut self, path: &str, header: &[u8]) -> (pin: bool)
        ensures
            final(self)@ == spec_observe(old(self)@, path@, inferred_kind(header@)),
            pin == (inferred_kind(header@) matches Some((mime, _))
                && mime.len() >= 6 && mime.take(6) == image_mime_prefix()),
    {
        let kind = match file_kind(header) {
            Some(k) => k,
            None => return false,
        };
        let is_image = starts_with_image(kind.mime_type.as_str());
        if is_image {
            self.input_image_path = path.to_owned();
        }
        if is_xml_extension(kind.extension.as_str()) {
            self.input_xml_path = path.to_owned();
        }
        is_image
    }

    /// Records the CID under which the folder's image was pinned.
    pub fn record_image_cid(&mut self, cid: String)
        ensures
            final(self)@ == (AssetContextView { image_cid: cid@, ..old(self)@ }),
    {
        self.image_cid = cid;
    }

    /// Closes the folder at `index`: when its image CID, its XML file and
    /// its image are all known, the context gets its output path and is no
    /// longer empty, and the caller writes the output file; otherwise it
    /// stays as it is.
    pub fn finish(&mut self, folder_index: usize) -> (ready: bool)
        ensures
            ready == (old(self)@.image_cid.len() > 0 && old(self)@.input_xml_path.len() > 0
                && old(self)@.input_image_path.len() > 0),
            ready ==> final(self)@ == (AssetContextView {
                output_xml_path: output_path(folder_index),
                empty: false,
                ..old(self)@
            }),
            !ready ==> final(self)@ == old(self)@,
    {
        if self.image_cid.as_str().unicode_len() > 0 && self.input_xml_path.as_str().unicode_len() > 0
            && self.input_image_path.as_str().unicode_len() > 0 {
            let mut out = String::from_str(OUTPUT_FILES_DIR);
            out.append("/");
            push_decimal(&mut out, folder_index as u64);
            out.append(".xml");
            self.output_xml_path = out;
            self.empty = false;
            true
        } else {
            false
        }
    }
}

/// The contexts that are not empty, in order.
pub open spec fn non_empty(cs: Seq<AssetContextView>) -> Seq<AssetContextView>
    decreases cs.len(),
{
    if cs.len() == 0 {
        seq![]
    } else if cs.last().empty {
        non_empty(cs.drop_last())
    } else {
        non_empty(cs.drop_last()).push(cs.last())
    }
}

/// Whether an asset folder yielded an output file.
pub open spec fn processed() -> spec_fn(AssetContextView) -> bool {
    |c: AssetContextView| !c.empty
}

proof fn lemma_non_empty_filter(cs: Seq<AssetContextView>)
    ensures
        non_empty(cs) == cs.filter(processed()),
    decreases cs.len(),
{
    reveal(Seq::filter);
    if cs.len() > 0 {
        lemma_non_empty_filter(cs.drop_last());
    }
}

/// Law: the folders kept are exactly the processed ones, in the order given:
/// every kept folder was processed, every processed folder is kept, and the
/// number kept is the number processed.
pub proof fn law_processed_folders_kept(cs: Seq<AssetContextView>)
    ensures
        non_empty(cs) == cs.filter(processed()),
        forall|j: int| 0 <= j < non_empty(cs).len() ==> !(#[trigger] non_empty(cs)[j]).empty,
        forall|i: int| 0 <= i < cs.len() && !(#[trigger] cs[i]).empty ==> non_empty(cs).contains(cs[i]),
{
    lemma_non_empty_filter(cs);
    assert forall|j: int| 0 <= j < non_empty(cs).len() implies !(#[trigger] non_empty(cs)[j]).empty by {
        cs.lemma_filter_pred(processed(), j);
    }
    assert forall|i: int| 0 <= i < cs.len() && !(#[trigger] cs[i]).empty implies non_empty(cs).contains(cs[i]) by {
        cs.lemma_filter_contains(processed(), i);
    }
}

/// The contexts, each as its view.
pub open spec fn contexts_view(cs: Seq<AssetDirProcessingContext>) -> Seq<AssetContextView> {
    cs.map_values(|c: AssetDirProcessingContext| c@)
}

/// Keeps the asset folders that yielded an output file: `SourcePathIsNotDir`
/// when the source path is not a directory, `EmptySourcePathFolder` when no
/// folder yielded one.
pub fn select_processed_folders(folder_path: &str, is_dir: bool, contexts: Vec<AssetDirProcessingContext>)
    -> (res: Result<Vec<AssetDirProcessingContext>, OwDataProviderCliError>)
    ensures
        !is_dir ==> (res matches Err(e) && e@ == ProviderErrorView::SourcePathIsNotDir(folder_path@)),
        is_dir && non_empty(contexts_view(contexts@)).len() == 0
            ==> (res matches Err(e) && e@ == ProviderErrorView::EmptySourcePathFolder(folder_path@)),
        is_dir && non_empty(contexts_view(contexts@)).len() > 0
            ==> (res matches Ok(v) && contexts_view(v@) == non_empty(contexts_view(contexts@))),
{
    if !is_dir {
        return Err(OwDataProviderCliError::SourcePathIsNotDir(folder_path.to_owned()));
    }
    let ghost all = contexts_view(contexts@);
    let mut result: Vec<AssetDirProcessingContext> = Vec::new();
    let mut rest = contexts;
    let ghost given = rest@;
    let n = rest.len();
    let mut i: usize = 0;
    while rest.len() > 0
        invariant
            n == given.len(),
            all == contexts_view(given),
            rest@.len() + i == n,
            rest@ == given.skip(i as int),
            contexts_view(result@) == non_empty(all.take(i as int)),
        decreases rest.len(),
    {
        let c = rest.remove(0);
        assert(c == given[i as int]);
        assert(rest@ =~= given.skip(i + 1));
        assert(all.take(i + 1).drop_last() =~= all.take(i as int));
        assert(all.take(i + 1).last() == c@);
        if !c.empty {
            result.push(c);
            assert(contexts_view(result@) =~= non_empty(all.take(i as int)).push(c@));
        }
        i = i + 1;
    }
    assert(all.take(n as int) =~= all);
    if result.len() == 0 {
        return Err(OwDataProviderCliError::EmptySourcePathFolder(folder_path.to_owned()));
    }
    Ok(result)
}

/// The start tag name `MessageHeader`.
pub open spec fn message_header_tag() -> Seq<u8> {
    seq![77u8, 101u8, 115u8, 115u8, 97u8, 103u8, 101u8, 72u8, 101u8, 97u8, 100u8, 101u8, 114u8]
}

fn is_message_header_tag(b: &[u8]) -> (r: bool)
    ensures
        r == (b@ == message_header_tag()),
{
    let t: [u8; 13] = [77u8, 101u8, 115u8, 115u8, 97u8, 103u8, 101u8, 72u8, 101u8, 97u8, 100u8, 101u8, 114u8];
    assert(t@ =~= message_header_tag());
    bytes_equal(b, t.as_slice())
}

/// What the provider writes for one event of the message: start tags, end
/// tags and text as they were, with `<ImageIpfsCid>`, the escaped CID and
/// `</ImageIpfsCid>` right after the start tag `MessageHeader`; other events
/// are dropped.
pub open spec fn cid_rewrite(e: XmlEventView, cid: Seq<char>) -> Seq<u8> {
    match e {
        XmlEventView::Start(b) => if b == message_header_tag() {
            written(e) + written(XmlEventView::Start(image_cid_tag())) + encode_utf8(escaped(cid))
                + written(XmlEventView::End(image_cid_tag()))
        } else {
            written(e)
        },
        _ => written(e),
    }
}

/// What the provider writes for the first `n` events.
pub open spec fn cid_rewrite_all(events: Seq<XmlEventView>, cid: Seq<char>, n: nat) -> Seq<u8>
    decreases n,
{
    if n == 0 {
        seq![]
    } else {
        cid_rewrite_all(events, cid, (n - 1) as nat) + cid_rewrite(events[n - 1], cid)
    }
}

/// The element that the provider inserts: `<ImageIpfsCid>`, the escaped
/// CID, `</ImageIpfsCid>`.
pub open spec fn cid_element(cid: Seq<char>) -> Seq<u8> {
    seq![60u8] + image_cid_tag() + seq![62u8] + encode_utf8(escaped(cid))
        + seq![60u8, 47u8] + image_cid_tag() + seq![62u8]
}

/// Law: every event of the message is written unchanged, whole: a start
/// tag `b` as `<` `b` `>`, an end tag `b` as `</` `b` `>`, a text node as
/// its bytes; other events are dropped; and the CID element follows the
/// `MessageHeader` start tag and nothing else.
pub proof fn law_cid_rewrite_event(e: XmlEventView, cid: Seq<char>)
    ensures
        cid_rewrite_all(seq![e], cid, 1) == match e {
            XmlEventView::Start(b) => if b == message_header_tag() {
                seq![60u8] + b + seq![62u8] + cid_element(cid)
            } else {
                seq![60u8] + b + seq![62u8]
            },
            XmlEventView::End(b) => seq![60u8, 47u8] + b + seq![62u8],
            XmlEventView::Text(b) => b,
            XmlEventView::Other => Seq::<u8>::empty(),
        },
{
    let one = seq![e];
    assert(one[0] == e);
    assert(cid_rewrite_all(one, cid, 0) =~= Seq::<u8>::empty());
    match e {
        XmlEventView::Start(b) => {
            if b == message_header_tag() {
                assert(cid_rewrite_all(one, cid, 1) =~= seq![60u8] + b + seq![62u8] + cid_element(cid));
            } else {
                assert(cid_rewrite_all(one, cid, 1) =~= seq![60u8] + b + seq![62u8]);
            }
        },
        XmlEventView::End(b) => {
            assert(cid_rewrite_all(one, cid, 1) =~= seq![60u8, 47u8] + b + seq![62u8]);
        },
        XmlEventView::Text(b) => {
            assert(cid_rewrite_all(one, cid, 1) =~= b);
        },
        XmlEventView::Other => {},
    }
}

proof fn lemma_cid_rewrite_prefix(a: Seq<XmlEventView>, b: Seq<XmlEventView>, cid: Seq<char>, n: nat)
    requires
        n <= a.len(),
    ensures
        cid_rewrite_all(a + b, cid, n) == cid_rewrite_all(a, cid, n),
    decreases n,
{
    if n > 0 {
        lemma_cid_rewrite_prefix(a, b, cid, (n - 1) as nat);
        assert((a + b)[n - 1] == a[n - 1]);
    }
}

proof fn lemma_cid_rewrite_concat(a: Seq<XmlEventView>, b: Seq<XmlEventView>, cid: Seq<char>, k: nat)
    requires
        k <= b.len(),
    ensures
        cid_rewrite_all(a + b, cid, a.len() + k) == cid_rewrite_all(a, cid, a.len()) + cid_rewrite_all(b, cid, k),
    decreases k,
{
    if k == 0 {
        lemma_cid_rewrite_prefix(a, b, cid, a.len());
        assert(cid_rewrite_all(a, cid, a.len()) + cid_rewrite_all(b, cid, 0) =~= cid_rewrite_all(a, cid, a.len()));
    } else {
        lemma_cid_rewrite_concat(a, b, cid, (k - 1) as nat);
        assert((a + b)[a.len() + k - 1] == b[k - 1]);
        assert(cid_rewrite_all(a, cid, a.len()) + cid_rewrite_all(b, cid, (k - 1) as nat) + cid_rewrite(b[k - 1], cid)
            =~= cid_rewrite_all(a, cid, a.len()) + (cid_rewrite_all(b, cid, (k - 1) as nat) + cid_rewrite(b[k - 1], cid)));
    }
}

/// Law: the rewrite of two runs of events, one after the other, is the
/// rewrite of the first followed by the rewrite of the second; with
/// [`law_cid_rewrite_event`], the output is each event written whole, in
/// order, with the CID element after each `MessageHeader` start tag.
pub proof fn law_cid_rewrite_concat(a: Seq<XmlEventView>, b: Seq<XmlEventView>, cid: Seq<char>)
    ensures
        cid_rewrite_all(a + b, cid, (a + b).len()) == cid_rewrite_all(a, cid, a.len()) + cid_rewrite_all(b, cid, b.len()),
{
    lemma_cid_rewrite_concat(a, b, cid, b.len());
}

/// The rewritten message, and whether the reader reached its end (when it
/// did not, the message holds what was written before the error).
pub struct CidAttachment {
    pub xml: Vec<u8>,
    pub complete: bool,
}

/// Rewrites the message `xml` with the image CID after its `MessageHeader`
/// start tag, as [`cid_rewrite`] describes.
pub fn attach_cid(xml: &[u8], cid: &str) -> (res: CidAttachment)
    ensures
        ({
            let (events, complete) = xml_events(xml@);
            res.xml@ == cid_rewrite_all(events, cid@, events.len()) && res.complete == complete
        }),
{
    let readout = read_xml_events(xml);
    let ghost events = events_view(readout.events@);
    let escaped_cid = escape_text(cid);
    let mut out: Vec<u8> = Vec::new();
    let k = readout.events.len();
    let mut i: usize = 0;
    while i < k
        invariant
            k == readout.events@.len(),
            events == events_view(readout.events@),
            i <= k,
            escaped_cid@ == escaped(cid@),
            out@ == cid_rewrite_all(events, cid@, i as nat),
        decreases k - i,
    {
        let e = &readout.events[i];
        assert(events[i as int] == e@);
        write_event(&mut out, e);
        match e {
            XmlEvent::Start(b) => {
                if is_message_header_tag(b.as_slice()) {
                    let t: [u8; 12] = [73u8, 109u8, 97u8, 103u8, 101u8, 73u8, 112u8, 102u8, 115u8, 67u8, 105u8, 100u8];
                    assert(t@ =~= image_cid_tag());
                    let mut name: Vec<u8> = Vec::new();
                    name.extend_from_slice(t.as_slice());
                    let start = XmlEvent::Start(name.clone());
                    write_event(&mut out, &start);
                    out.extend_from_slice(escaped_cid.as_str().as_bytes());
                    let end = XmlEvent::End(name);
                    write_event(&mut out, &end);
                }
            },
            _ => {},
        }
        i = i + 1;
    }
    CidAttachment { xml: out, complete: readout.complete }
}

} // verus!
