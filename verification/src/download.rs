//! The decisions around the downloads: where files go, what extension a
//! download gets, the steps of fetching one token's metadata and image with
//! retries, and the hand-out of tokens to the workers.
use vstd::prelude::*;

use crate::numfmt::{decimal, decimal_value, lemma_decimal_value_decimal, usize_to_decimal};
use crate::text::{chars_equal, chars_of, concat, has_prefix, last_index_of};
use crate::url::{convert_to_https, https_form, opt_view, trim, trimmed};

verus! {

/// The number of failed downloads of one file after which a token is given up.
pub const MAX_DOWNLOAD_FAILURES: u32 = 100;

/// The folder of metadata files under `root`.
pub open spec fn meta_dir_spec(root: Seq<char>) -> Seq<char> {
    root + "/meta"@
}

/// The folder of image files under `root`.
pub open spec fn img_dir_spec(root: Seq<char>) -> Seq<char> {
    root + "/img"@
}

/// Where the metadata of token `id` is saved.
pub open spec fn meta_path_spec(root: Seq<char>, id: nat) -> Seq<char> {
    root + "/meta/"@ + decimal(id)
}

/// Where the image of token `id` is saved (before its extension).
pub open spec fn img_path_spec(root: Seq<char>, id: nat) -> Seq<char> {
    root + "/img/"@ + decimal(id)
}

/// Different tokens are saved under different names: neither their metadata
/// files nor their image files collide.
pub proof fn lemma_token_paths_distinct(root: Seq<char>, a: nat, b: nat)
    requires
        meta_path_spec(root, a) == meta_path_spec(root, b) || img_path_spec(root, a)
            == img_path_spec(root, b),
    ensures
        a == b,
{
    lemma_decimal_value_decimal(a);
    lemma_decimal_value_decimal(b);
    let pm = root + "/meta/"@;
    let pi = root + "/img/"@;
    if meta_path_spec(root, a) == meta_path_spec(root, b) {
        assert(meta_path_spec(root, a).skip(pm.len() as int) =~= decimal(a));
        assert(meta_path_spec(root, b).skip(pm.len() as int) =~= decimal(b));
    } else {
        assert(img_path_spec(root, a).skip(pi.len() as int) =~= decimal(a));
        assert(img_path_spec(root, b).skip(pi.len() as int) =~= decimal(b));
    }
    assert(decimal_value(decimal(a)) == decimal_value(decimal(b)));
}

/// The save folder that the user typed (whitespace around it ignored), with
/// its metadata and image folders.
pub fn nft_dir_names(root_input: &str) -> (r: (String, String, String))
    ensures
        r.0@ == trimmed(root_input@),
        r.1@ == meta_dir_spec(trimmed(root_input@)),
        r.2@ == img_dir_spec(trimmed(root_input@)),
{
    let root = trim(root_input);
    (root.to_owned(), concat(root, "/meta"), concat(root, "/img"))
}

/// Where the metadata of token `id` is saved.
pub fn meta_file_path(root_dir: &str, id: usize) -> (r: String)
    ensures
        r@ == meta_path_spec(root_dir@, id as nat),
{
    let head = concat(root_dir, "/meta/");
    let number = usize_to_decimal(id);
    concat(head.as_str(), number.as_str())
}

/// Where the image of token `id` is saved (before its extension).
pub fn img_file_path(root_dir: &str, id: usize) -> (r: String)
    ensures
        r@ == img_path_spec(root_dir@, id as nat),
{
    let head = concat(root_dir, "/img/");
    let number = usize_to_decimal(id);
    concat(head.as_str(), number.as_str())
}

/// The metadata paths of the tokens whose download failed, whose leftovers are removed.
pub fn failed_meta_paths(root_dir: &str, fail_ids: &Vec<usize>) -> (r: Vec<String>)
    ensures
        r@.len() == fail_ids@.len(),
        forall|i: int|
            0 <= i < fail_ids@.len() ==> #[trigger] r@[i]@ == meta_path_spec(
                root_dir@,
                fail_ids@[i] as nat,
            ),
{
    let mut r: Vec<String> = Vec::new();
    for k in 0..fail_ids.len()
        invariant
            r@.len() == k,
            forall|i: int|
                0 <= i < k ==> #[trigger] r@[i]@ == meta_path_spec(root_dir@, fail_ids@[i] as nat),
    {
        r.push(meta_file_path(root_dir, fail_ids[k]));
    }
    r
}

/// The extension that a download of the given content type gets, where the
/// content type decides it.
pub open spec fn content_type_extension(content_type: Seq<char>) -> Option<Seq<char>> {
    if content_type == "image/png"@ {
        Some(".png"@)
    } else if content_type == "image/jpeg"@ {
        Some(".jpg"@)
    } else if content_type == "image/img"@ {
        Some(".img"@)
    } else if content_type == "image/webp"@ {
        Some(".webp"@)
    } else if content_type == "application/json; charset=utf-8"@ {
        Some(Seq::<char>::empty())
    } else {
        None
    }
}

/// The extension of a download: the one its content type decides, or else
/// `.` and the extension of its link's path, or else none.
pub open spec fn file_extension_spec(
    content_type: Seq<char>,
    url_extension: Option<Seq<char>>,
) -> Seq<char> {
    match content_type_extension(content_type) {
        Some(e) => e,
        None => match url_extension {
            Some(x) => seq!['.'] + x,
            None => Seq::<char>::empty(),
        },
    }
}

/// `e` is a possible extension of the path `url`: it stands in `url` right
/// after a `.`, and holds neither `.` nor `/`.
pub open spec fn is_extension_in(url: Seq<char>, e: Seq<char>) -> bool {
    &&& !e.contains('.')
    &&& !e.contains('/')
    &&& exists|i: int|
        1 <= i && i + e.len() <= url.len() && url[i - 1] == '.' && #[trigger] url.subrange(
            i,
            i + e.len(),
        ) == e
}

/// A link that every platform cuts into path components the same way: it
/// starts with `http` (so it has no root and no drive or verbatim prefix) and
/// holds no backslash (so `/` is its only separator).
pub open spec fn plain_web_link(url: Seq<char>) -> bool {
    has_prefix(url, "http"@) && !url.contains('\\')
}

/// The text after the last `/` of `s` (all of `s` when it has none).
pub open spec fn last_segment(s: Seq<char>) -> Seq<char>
    decreases s.len(),
{
    if s.len() == 0 || s.last() == '/' {
        Seq::<char>::empty()
    } else {
        last_segment(s.drop_last()).push(s.last())
    }
}

/// The file name of a path separated by `/`: its last component, where empty
/// components and `.` components are skipped; none when that component is `..`
/// or there is no component.
pub open spec fn file_name_of(s: Seq<char>) -> Option<Seq<char>>
    decreases s.len(),
{
    if s.len() == 0 {
        None
    } else if s.last() == '/' {
        file_name_of(s.drop_last())
    } else if last_segment(s) == seq!['.'] {
        file_name_of(s.drop_last())
    } else if last_segment(s) == seq!['.', '.'] {
        None
    } else {
        Some(last_segment(s))
    }
}

/// The extension of a file name: the text after its last `.`; none when it
/// has no `.`, or when its only `.` is its first character.
pub open spec fn extension_of_name(name: Seq<char>) -> Option<Seq<char>> {
    match last_index_of(name, '.') {
        Some(k) => if k == 0 {
            None
        } else {
            Some(name.skip(k + 1))
        },
        None => None,
    }
}

/// The extension of the path of a link separated by `/`.
pub open spec fn url_extension_spec(url: Seq<char>) -> Option<Seq<char>> {
    match file_name_of(url) {
        Some(name) => extension_of_name(name),
        None => None,
    }
}

/// `Path::new(url).extension()`, as text. How a path is cut into components
/// depends on the platform only through backslash separators and through roots and
/// prefixes, so for a link that starts with `http` and holds no backslash the
/// contract claims what the documentation of `Path::file_name` and
/// `Path::extension` describes (`url_extension_spec`). Of any other link it
/// claims only what holds on every platform: an extension stands in the path
/// right after a `.`, and holds neither `.` nor `/`.
#[verifier::external_body]
fn path_extension(url: &str) -> (r: Option<String>)
    ensures
        r matches Some(e) ==> is_extension_in(url@, e@),
        plain_web_link(url@) ==> opt_view(r) == url_extension_spec(url@),
{
    match std::path::Path::new(url).extension() {
        Some(e) => match e.to_str() {
            Some(t) => Some(t.to_string()),
            None => None,
        },
        None => None,
    }
}

/// The view of an optional string slice.
pub open spec fn opt_str_view(r: Option<&str>) -> Option<Seq<char>> {
    match r {
        Some(s) => Some(s@),
        None => None,
    }
}

/// Whether `s` holds the characters of `t`.
fn str_equals(s: &[char], t: &str) -> (r: bool)
    ensures
        r == (s@ == t@),
{
    let tc = chars_of(t);
    chars_equal(s, tc.as_slice())
}

/// The extension of a download, given its content type and the extension of
/// its link's path (see `file_extension_spec`).
pub fn extension_from(content_type: &str, url_extension: Option<&str>) -> (r: String)
    ensures
        r@ == file_extension_spec(content_type@, opt_str_view(url_extension)),
{
    let ct = chars_of(content_type);
    if str_equals(ct.as_slice(), "image/png") {
        ".png".to_owned()
    } else if str_equals(ct.as_slice(), "image/jpeg") {
        ".jpg".to_owned()
    } else if str_equals(ct.as_slice(), "image/img") {
        ".img".to_owned()
    } else if str_equals(ct.as_slice(), "image/webp") {
        ".webp".to_owned()
    } else if str_equals(ct.as_slice(), "application/json; charset=utf-8") {
        String::new()
    } else {
        match url_extension {
            Some(x) => {
                proof {
                    reveal_strlit(".");
                }
                assert("."@ =~= seq!['.']);
                concat(".", x)
            },
            None => String::new(),
        }
    }
}

/// The name a download is saved under: `file_path` followed by its extension,
/// where the extension comes from the content type or else from `url`.
pub fn download_file_name(file_path: &str, content_type: &str, url: &str) -> (r: String)
    ensures
        content_type_extension(content_type@) matches Some(e) ==> r@ == file_path@ + e,
        content_type_extension(content_type@) is None ==> (r@ == file_path@ || exists|x: Seq<char>|
            is_extension_in(url@, x) && r@ == file_path@ + seq!['.'] + x),
        plain_web_link(url@) ==> r@ == file_path@ + file_extension_spec(
            content_type@,
            url_extension_spec(url@),
        ),
{
    let url_extension = path_extension(url);
    let extension = match &url_extension {
        Some(e) => extension_from(content_type, Some(e.as_str())),
        None => extension_from(content_type, None),
    };
    let r = concat(file_path, extension.as_str());
    proof {
        if content_type_extension(content_type@) is None {
            if let Some(e) = url_extension {
                assert(r@ =~= file_path@ + seq!['.'] + e@);
            } else {
                assert(r@ =~= file_path@);
            }
        }
    }
    r
}

/// Where the fetch of one token stands.
#[derive(Debug, Clone, Copy, PartialEq, Eq, Structural)]
pub enum NftStage {
    /// Downloading the metadata.
    FetchMeta,
    /// Waiting for the image link read from the saved metadata.
    ReadMeta,
    /// Downloading the image.
    FetchImage,
    /// Over.
    Ended,
}

/// What the caller does next for one token.
#[derive(Debug, Clone, Copy, PartialEq, Eq, Structural)]
pub enum NftAction {
    /// Download `current_url` to `meta_path`.
    DownloadMeta,
    /// Read the saved metadata and report its image link.
    ReadMeta,
    /// Download `current_url` to `img_path`.
    DownloadImage,
    /// Both files are saved.
    Finished,
    /// One file failed to download `MAX_DOWNLOAD_FAILURES` times in a row.
    GiveUp,
    /// The metadata names no image.
    NoImageUrl,
    /// A link has no download form (see `https_form`).
    BadUrl,
}

/// What became of the last step.
pub enum NftEvent {
    /// The download succeeded.
    Downloaded,
    /// The download failed.
    DownloadFailed,
    /// The image link that the saved metadata names, if any.
    MetaImage(Option<String>),
}

/// An event, by value.
pub enum NftEventView {
    Downloaded,
    DownloadFailed,
    MetaImage(Option<Seq<char>>),
}

impl View for NftEvent {
    type V = NftEventView;

    open spec fn view(&self) -> NftEventView {
        match self {
            NftEvent::Downloaded => NftEventView::Downloaded,
            NftEvent::DownloadFailed => NftEventView::DownloadFailed,
            NftEvent::MetaImage(None) => NftEventView::MetaImage(None),
            NftEvent::MetaImage(Some(u)) => NftEventView::MetaImage(Some(u@)),
        }
    }
}

/// The fetch of one token's metadata and image.
pub struct NftDownload {
    id: usize,
    root_dir: String,
    stage: NftStage,
    url: String,
    failures: u32,
}

/// The abstract state of a fetch.
pub struct NftDownloadView {
    pub id: nat,
    pub root_dir: Seq<char>,
    pub stage: NftStage,
    pub url: Seq<char>,
    pub failures: nat,
}

impl View for NftDownload {
    type V = NftDownloadView;

    closed spec fn view(&self) -> NftDownloadView {
        NftDownloadView {
            id: self.id as nat,
            root_dir: self.root_dir@,
            stage: self.stage,
            url: self.url@,
            failures: self.failures as nat,
        }
    }
}

/// The action that a fetch in stage `stage` is waiting on.
pub open spec fn pending_action(stage: NftStage) -> NftAction {
    match stage {
        NftStage::FetchMeta => NftAction::DownloadMeta,
        NftStage::ReadMeta => NftAction::ReadMeta,
        NftStage::FetchImage => NftAction::DownloadImage,
        NftStage::Ended => NftAction::Finished,
    }
}

/// One step of a fetch: the next state and the next action.
pub open spec fn nft_step(v: NftDownloadView, ev: NftEventView) -> (NftDownloadView, NftAction) {
    let ended = NftDownloadView { stage: NftStage::Ended, ..v };
    match (v.stage, ev) {
        (NftStage::FetchMeta, NftEventView::Downloaded) => (
            NftDownloadView { stage: NftStage::ReadMeta, ..v },
            NftAction::ReadMeta,
        ),
        (NftStage::FetchImage, NftEventView::Downloaded) => (ended, NftAction::Finished),
        (NftStage::FetchMeta, NftEventView::DownloadFailed) | (
            NftStage::FetchImage,
            NftEventView::DownloadFailed,
        ) => if v.failures + 1 >= MAX_DOWNLOAD_FAILURES {
            (NftDownloadView { failures: v.failures + 1, ..ended }, NftAction::GiveUp)
        } else {
            (NftDownloadView { failures: v.failures + 1, ..v }, pending_action(v.stage))
        },
        (NftStage::ReadMeta, NftEventView::MetaImage(None)) => (ended, NftAction::NoImageUrl),
        (NftStage::ReadMeta, NftEventView::MetaImage(Some(u))) => match https_form(u) {
            Some(h) => (
                NftDownloadView { stage: NftStage::FetchImage, url: h, failures: 0, ..v },
                NftAction::DownloadImage,
            ),
            None => (ended, NftAction::BadUrl),
        },
        _ => (v, pending_action(v.stage)),
    }
}

/// The state and action in which a fetch of token `id` from `url` starts.
pub open spec fn nft_start(id: nat, url: Seq<char>, root_dir: Seq<char>) -> (
    NftDownloadView,
    NftAction,
) {
    match https_form(url) {
        Some(h) => (
            NftDownloadView {
                id,
                root_dir,
                stage: NftStage::FetchMeta,
                url: h,
                failures: 0,
            },
            NftAction::DownloadMeta,
        ),
        None => (
            NftDownloadView { id, root_dir, stage: NftStage::Ended, url, failures: 0 },
            NftAction::BadUrl,
        ),
    }
}

impl NftDownload {
    /// A fetch that is still going has failed fewer than `MAX_DOWNLOAD_FAILURES` times.
    #[verifier::type_invariant]
    spec fn failures_below_limit(self) -> bool {
        self.stage != NftStage::Ended ==> self.failures < MAX_DOWNLOAD_FAILURES
    }

    /// Starts the fetch of token `id` whose metadata link is `url`, saving
    /// under `root_dir`: the metadata is downloaded from the link's download
    /// form, or, where it has none, the fetch ends at once with `BadUrl`.
    pub fn start(id: usize, url: &str, root_dir: &str) -> (r: (NftDownload, NftAction))
        ensures
            (r.0@, r.1) == nft_start(id as nat, url@, root_dir@),
    {
        match convert_to_https(url) {
            Some(h) => (
                NftDownload {
                    id,
                    root_dir: root_dir.to_owned(),
                    stage: NftStage::FetchMeta,
                    url: h,
                    failures: 0,
                },
                NftAction::DownloadMeta,
            ),
            None => (
                NftDownload {
                    id,
                    root_dir: root_dir.to_owned(),
                    stage: NftStage::Ended,
                    url: url.to_owned(),
                    failures: 0,
                },
                NftAction::BadUrl,
            ),
        }
    }

    /// Whether the fetch is still going.
    pub fn is_active(&self) -> (r: bool)
        ensures
            r == (self@.stage != NftStage::Ended),
    {
        self.stage != NftStage::Ended
    }

    /// The link being downloaded.
    pub fn current_url(&self) -> (r: String)
        ensures
            r@ == self@.url,
    {
        self.url.clone()
    }

    /// Where the metadata is saved.
    pub fn meta_path(&self) -> (r: String)
        ensures
            r@ == meta_path_spec(self@.root_dir, self@.id),
    {
        meta_file_path(self.root_dir.as_str(), self.id)
    }

    /// Where the image is saved (before its extension).
    pub fn img_path(&self) -> (r: String)
        ensures
            r@ == img_path_spec(self@.root_dir, self@.id),
    {
        img_file_path(self.root_dir.as_str(), self.id)
    }

    /// Takes one step of a fetch that is still going (see `nft_step`).
    pub fn on_event(&mut self, event: NftEvent) -> (r: NftAction)
        requires
            old(self)@.stage != NftStage::Ended,
        ensures
            (final(self)@, r) == nft_step(old(self)@, event@),
    {
        proof {
            use_type_invariant(&*self);
        }
        match (self.stage, event) {
            (NftStage::FetchMeta, NftEvent::Downloaded) => {
                self.stage = NftStage::ReadMeta;
                NftAction::ReadMeta
            },
            (NftStage::FetchImage, NftEvent::Downloaded) => {
                self.stage = NftStage::Ended;
                NftAction::Finished
            },
            (NftStage::FetchMeta, NftEvent::DownloadFailed) | (
                NftStage::FetchImage,
                NftEvent::DownloadFailed,
            ) => {
                let failures = self.failures + 1;
                if failures >= MAX_DOWNLOAD_FAILURES {
                    self.stage = NftStage::Ended;
                    self.failures = failures;
                    NftAction::GiveUp
                } else {
                    self.failures = failures;
                    if self.stage == NftStage::FetchMeta {
                        NftAction::DownloadMeta
                    } else {
                        NftAction::DownloadImage
                    }
                }
            },
            (NftStage::ReadMeta, NftEvent::MetaImage(None)) => {
                self.stage = NftStage::Ended;
                NftAction::NoImageUrl
            },
            (NftStage::ReadMeta, NftEvent::MetaImage(Some(u))) => {
                match convert_to_https(u.as_str()) {
                    Some(h) => {
                        self.failures = 0;
                        self.url = h;
                        self.stage = NftStage::FetchImage;
                        NftAction::DownloadImage
                    },
                    None => {
                        self.stage = NftStage::Ended;
                        NftAction::BadUrl
                    },
                }
            },
            (NftStage::FetchMeta, _) => NftAction::DownloadMeta,
            (NftStage::ReadMeta, _) => NftAction::ReadMeta,
            (NftStage::FetchImage, _) => NftAction::DownloadImage,
            (NftStage::Ended, _) => NftAction::Finished,
        }
    }
}

/// The state after `k` failed downloads in a row.
pub open spec fn after_failures(v: NftDownloadView, k: nat) -> (NftDownloadView, NftAction)
    decreases k,
{
    if k == 0 {
        (v, pending_action(v.stage))
    } else {
        let (w, _) = after_failures(v, (k - 1) as nat);
        if w.stage == NftStage::Ended {
            after_failures(v, (k - 1) as nat)
        } else {
            nft_step(w, NftEventView::DownloadFailed)
        }
    }
}

/// A fetch started for token `id` under `root` saves under that token: its
/// metadata goes to `root/meta/id` and its image to `root/img/id`, and when the
/// link has a download form, the metadata is downloaded from that form.
pub proof fn lemma_start_saves_under_token(id: nat, url: Seq<char>, root: Seq<char>)
    ensures
        nft_start(id, url, root).0.id == id,
        nft_start(id, url, root).0.root_dir == root,
        meta_path_spec(nft_start(id, url, root).0.root_dir, nft_start(id, url, root).0.id) == root
            + "/meta/"@ + decimal(id),
        img_path_spec(nft_start(id, url, root).0.root_dir, nft_start(id, url, root).0.id) == root
            + "/img/"@ + decimal(id),
        https_form(url) matches Some(h) ==> nft_start(id, url, root).0.url == h && nft_start(
            id,
            url,
            root,
        ).1 == NftAction::DownloadMeta,
        https_form(url) is None ==> nft_start(id, url, root).1 == NftAction::BadUrl,
{
}

/// No step of a fetch changes the token it is for or where it saves.
pub proof fn lemma_step_keeps_token(v: NftDownloadView, ev: NftEventView)
    ensures
        nft_step(v, ev).0.id == v.id,
        nft_step(v, ev).0.root_dir == v.root_dir,
{
}

/// Once the metadata names an image link `u` that has a download form, the
/// next download is the image, from that form of `u`, whatever was downloaded
/// before.
pub proof fn lemma_image_fetched_from_its_link(v: NftDownloadView, u: Seq<char>)
    requires
        v.stage == NftStage::ReadMeta,
        https_form(u) is Some,
    ensures
        nft_step(v, NftEventView::MetaImage(Some(u))).0.url == https_form(u)->0,
        nft_step(v, NftEventView::MetaImage(Some(u))).0.stage == NftStage::FetchImage,
        nft_step(v, NftEventView::MetaImage(Some(u))).1 == NftAction::DownloadImage,
{
}

/// A whole fetch of token `id`: the metadata is downloaded from the download
/// form of its link, and once it names an image link `u`, the image is
/// downloaded from the download form of `u` and saved under the same token.
pub proof fn lemma_fetch_follows_links(id: nat, url: Seq<char>, root: Seq<char>, u: Seq<char>)
    requires
        https_form(url) is Some,
        https_form(u) is Some,
    ensures
        ({
            let s0 = nft_start(id, url, root).0;
            let s1 = nft_step(s0, NftEventView::Downloaded);
            let s2 = nft_step(s1.0, NftEventView::MetaImage(Some(u)));
            &&& s0.url == https_form(url)->0
            &&& s1.1 == NftAction::ReadMeta
            &&& s2.1 == NftAction::DownloadImage
            &&& s2.0.url == https_form(u)->0
            &&& s2.0.id == id
            &&& img_path_spec(s2.0.root_dir, s2.0.id) == root + "/img/"@ + decimal(id)
        }),
{
    lemma_start_saves_under_token(id, url, root);
    let s0 = nft_start(id, url, root).0;
    lemma_step_keeps_token(s0, NftEventView::Downloaded);
    let s1 = nft_step(s0, NftEventView::Downloaded);
    lemma_image_fetched_from_its_link(s1.0, u);
    lemma_step_keeps_token(s1.0, NftEventView::MetaImage(Some(u)));
}

/// A file is tried until it has failed `MAX_DOWNLOAD_FAILURES` times in a
/// row: a fresh download stage keeps retrying after fewer failures, and gives
/// up at that number.
pub proof fn lemma_gives_up_after_max_failures(v: NftDownloadView, k: nat)
    requires
        v.stage == NftStage::FetchMeta || v.stage == NftStage::FetchImage,
        v.failures == 0,
        1 <= k <= MAX_DOWNLOAD_FAILURES,
    ensures
        k < MAX_DOWNLOAD_FAILURES ==> {
            &&& after_failures(v, k).0.stage == v.stage
            &&& after_failures(v, k).0.failures == k
            &&& after_failures(v, k).1 == pending_action(v.stage)
        },
        k == MAX_DOWNLOAD_FAILURES ==> {
            &&& after_failures(v, k).0.stage == NftStage::Ended
            &&& after_failures(v, k).1 == NftAction::GiveUp
        },
    decreases k,
{
    if k > 1 {
        lemma_gives_up_after_max_failures(v, (k - 1) as nat);
    } else {
        assert(after_failures(v, 0).0 == v);
    }
    let w = after_failures(v, (k - 1) as nat).0;
    assert(w.stage == v.stage && w.failures == k - 1);
    assert(after_failures(v, k) == nft_step(w, NftEventView::DownloadFailed));
}

/// The tokens to fetch, handed out one at a time in order.
pub struct TaskQueue {
    urls: Vec<String>,
    next: usize,
}

/// The abstract state of a queue.
pub struct TaskQueueView {
    pub urls: Seq<Seq<char>>,
    pub next: nat,
}

impl View for TaskQueue {
    type V = TaskQueueView;

    closed spec fn view(&self) -> TaskQueueView {
        TaskQueueView { urls: self.urls@.map_values(|u: String| u@), next: self.next as nat }
    }
}

impl TaskQueue {
    /// A queue of the metadata links of tokens `1..=urls.len()`, in order.
    pub fn new(urls: Vec<String>) -> (r: Self)
        ensures
            r@.urls == urls@.map_values(|u: String| u@),
            r@.next == 0,
    {
        TaskQueue { urls, next: 0 }
    }

    /// The next token and its metadata link: the link at index `next` is
    /// token `next + 1`; none once every link has been handed out.
    pub fn take(&mut self) -> (r: Option<(usize, String)>)
        ensures
            final(self)@.urls == old(self)@.urls,
            old(self)@.next < old(self)@.urls.len() ==> {
                &&& final(self)@.next == old(self)@.next + 1
                &&& r matches Some((id, url)) && id == old(self)@.next + 1 && url@ == old(
                    self,
                )@.urls[old(self)@.next as int]
            },
            old(self)@.next >= old(self)@.urls.len() ==> final(self)@ == old(self)@ && r is None,
    {
        if self.next < self.urls.len() {
            let url = self.urls[self.next].clone();
            let id = self.next + 1;
            self.next = self.next + 1;
            Some((id, url))
        } else {
            None
        }
    }
}

} // verus!
