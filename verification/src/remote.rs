//! Remote resources: the catalogue of downloadable archives, the names under
//! which an archive is stored and unpacked, the choice of unpacker, and the
//! decisions of a streamed download.
use vstd::prelude::*;

use vstd::utf8::{decode_utf8, encode_utf8, encode_utf8_decode_utf8, is_char_boundary};

use crate::text::{
    concat2, ends_with, has_suffix, lowercase_of, owned, parse_u64, parse_u64_spec, to_lowercase,
};

verus! {

// ---------------------------------------------------------------- resources

/// A downloadable archive: the name it is installed under and its address.
#[derive(Clone, Debug)]
pub struct RemoteResource {
    pub name: String,
    pub url: String,
}

impl RemoteResource {
    /// A resource with the given name and address.
    pub fn new(name: &str, url: &str) -> (r: RemoteResource)
        ensures
            r.name@ == name@,
            r.url@ == url@,
    {
        RemoteResource { name: owned(name), url: owned(url) }
    }

    /// A copy of this resource.
    pub fn duplicate(&self) -> (r: RemoteResource)
        ensures
            r == *self,
    {
        RemoteResource { name: self.name.clone(), url: self.url.clone() }
    }
}

/// The remote catalogue: for each language key, the resources offered for it.
/// A later entry for a key replaces an earlier one, as in a map.
pub struct ResourceCatalog {
    entries: Vec<(String, Vec<RemoteResource>)>,
}

/// The map that a list of catalogue entries stands for; later entries win.
pub open spec fn entries_map(e: Seq<(String, Vec<RemoteResource>)>) -> Map<
    Seq<char>,
    Seq<RemoteResource>,
>
    decreases e.len(),
{
    if e.len() == 0 {
        Map::empty()
    } else {
        entries_map(e.drop_last()).insert(e.last().0@, e.last().1@)
    }
}

impl View for ResourceCatalog {
    type V = Map<Seq<char>, Seq<RemoteResource>>;

    closed spec fn view(&self) -> Map<Seq<char>, Seq<RemoteResource>> {
        entries_map(self.entries@)
    }
}

impl ResourceCatalog {
    /// The empty catalogue.
    pub fn new() -> (r: ResourceCatalog)
        ensures
            r@ == Map::<Seq<char>, Seq<RemoteResource>>::empty(),
    {
        ResourceCatalog { entries: Vec::new() }
    }

    /// Offers `resources` under `key`, in place of what the key offered before.
    pub fn insert(&mut self, key: String, resources: Vec<RemoteResource>)
        ensures
            final(self)@ == old(self)@.insert(key@, resources@),
    {
        let ghost before = self.entries@;
        self.entries.push((key, resources));
        assert(self.entries@.drop_last() =~= before);
    }

    /// The resources offered under `key`, if the catalogue has the key.
    pub fn get(&self, key: &str) -> (r: Option<&Vec<RemoteResource>>)
        ensures
            r is Some <==> self@.contains_key(key@),
            r is Some ==> r.unwrap()@ == self@[key@],
    {
        let k = owned(key);
        let mut j: usize = self.entries.len();
        assert(self.entries@.take(j as int) =~= self.entries@);
        while j > 0
            invariant
                j <= self.entries.len(),
                k@ == key@,
                entries_map(self.entries@).contains_key(key@) == entries_map(
                    self.entries@.take(j as int),
                ).contains_key(key@),
                entries_map(self.entries@).contains_key(key@) ==> entries_map(self.entries@)[key@]
                    == entries_map(self.entries@.take(j as int))[key@],
            decreases j,
        {
            assert(self.entries@.take(j as int).drop_last() =~= self.entries@.take(j - 1));
            if self.entries[j - 1].0 == k {
                return Some(&self.entries[j - 1].1);
            }
            j = j - 1;
        }
        None
    }

    /// Whether the catalogue offers nothing at all.
    pub fn is_empty(&self) -> (r: bool)
        ensures
            r == (self@.dom() =~= Set::<Seq<char>>::empty()),
    {
        if self.entries.len() == 0 {
            true
        } else {
            let ghost e = self.entries@;
            assert(entries_map(e).contains_key(e.last().0@));
            false
        }
    }
}

/// A read gives back the last write: after `insert(k, v)`, looking up `k`
/// finds `v`, and every other key finds what it found before.
pub proof fn law_catalog_read_after_write(
    before: Map<Seq<char>, Seq<RemoteResource>>,
    k: Seq<char>,
    v: Seq<RemoteResource>,
    q: Seq<char>,
)
    ensures
        before.insert(k, v).contains_key(k),
        before.insert(k, v)[k] == v,
        q != k ==> (before.insert(k, v).contains_key(q) == before.contains_key(q)),
        q != k && before.contains_key(q) ==> before.insert(k, v)[q] == before[q],
{
}

// ---------------------------------------------------------------- archive names

/// The byte position of the last `x` in `b`, or -1 where there is none.
pub open spec fn last_byte_index(b: Seq<u8>, x: u8) -> int
    decreases b.len(),
{
    if b.len() == 0 {
        -1
    } else if b.last() == x {
        b.len() - 1
    } else {
        last_byte_index(b.drop_last(), x)
    }
}

/// The byte position of the last dot in the UTF-8 form of `lower`, or -1.
pub open spec fn last_dot_in(lower: Seq<char>) -> int {
    last_byte_index(encode_utf8(lower), 46u8)
}

/// `lower` ends in `.tar.gz` or `.tgz`.
pub open spec fn has_two_part_extension(lower: Seq<char>) -> bool {
    has_suffix(lower, ".tar.gz"@) || has_suffix(lower, ".tgz"@)
}

/// The address `url` can be cut where its extension begins, given its
/// lower-cased form `lower`: the extension is one of the two-part ones, or there
/// is no dot, or the dot's byte position in `lower` is a character boundary of
/// the address itself. (Where lower-casing changes the length of a character in
/// front of the dot, that position can fall inside a character, and slicing
/// there panics.)
pub open spec fn cut_ok_for(url: Seq<char>, lower: Seq<char>) -> bool {
    has_two_part_extension(lower) || last_dot_in(lower) < 0 || is_char_boundary(
        encode_utf8(url),
        last_dot_in(lower),
    )
}

/// The file extension under which an archive fetched from `url` is stored,
/// given the address's lower-cased form `lower`: the two-part `.tar.gz` and
/// `.tgz` where `lower` ends so; else the address from the byte position of
/// `lower`'s last dot on; else nothing.
pub open spec fn extension_for(url: Seq<char>, lower: Seq<char>) -> Seq<char> {
    if has_suffix(lower, ".tar.gz"@) {
        ".tar.gz"@
    } else if has_suffix(lower, ".tgz"@) {
        ".tgz"@
    } else if last_dot_in(lower) >= 0 {
        decode_utf8(encode_utf8(url).subrange(last_dot_in(lower), encode_utf8(url).len() as int))
    } else {
        Seq::empty()
    }
}

/// The byte position of the last dot in the lower-cased address, or -1.
pub open spec fn lowered_dot(url: Seq<char>) -> int {
    last_dot_in(lowercase_of(url))
}

/// `cut_ok_for` the address and its lower-cased form.
pub open spec fn extension_cut_ok(url: Seq<char>) -> bool {
    cut_ok_for(url, lowercase_of(url))
}

/// `extension_for` the address and its lower-cased form.
pub open spec fn spec_archive_extension(url: Seq<char>) -> Seq<char> {
    extension_for(url, lowercase_of(url))
}

/// The byte position of the last `x` in `b`.
fn last_byte(b: &[u8], x: u8) -> (r: Option<usize>)
    ensures
        match r {
            Some(i) => i == last_byte_index(b@, x),
            None => last_byte_index(b@, x) == -1,
        },
{
    let mut j: usize = b.len();
    assert(b@.subrange(0, j as int) =~= b@);
    while j > 0
        invariant
            j <= b@.len(),
            last_byte_index(b@, x) == last_byte_index(b@.subrange(0, j as int), x),
        decreases j,
    {
        if b[j - 1] == x {
            return Some(j - 1);
        }
        assert(b@.subrange(0, j as int).drop_last() =~= b@.subrange(0, j - 1));
        j = j - 1;
    }
    None
}

/// The byte position of the last dot in `lower`.
fn last_dot(lower: &str) -> (r: Option<usize>)
    ensures
        match r {
            Some(d) => d == last_dot_in(lower@),
            None => last_dot_in(lower@) == -1,
        },
{
    last_byte(lower.as_bytes(), 46u8)
}

proof fn lemma_last_byte_index_is(b: Seq<u8>, x: u8, d: int)
    requires
        0 <= d < b.len(),
        b[d] == x,
        forall|k: int| d < k < b.len() ==> b[k] != x,
    ensures
        last_byte_index(b, x) == d,
    decreases b.len(),
{
    if b.last() != x {
        lemma_last_byte_index_is(b.drop_last(), x, d);
    }
}

proof fn lemma_last_byte_index_none(b: Seq<u8>, x: u8)
    requires
        forall|k: int| 0 <= k < b.len() ==> b[k] != x,
    ensures
        last_byte_index(b, x) == -1,
    decreases b.len(),
{
    if b.len() > 0 {
        lemma_last_byte_index_none(b.drop_last(), x);
    }
}

/// An address whose lower-cased form ends in `.tar.gz` is stored with that
/// extension; one that ends in `.tgz` (and not `.tar.gz`) with `.tgz`.
pub proof fn law_extension_two_part(url: Seq<char>, lower: Seq<char>)
    ensures
        has_suffix(lower, ".tar.gz"@) ==> extension_for(url, lower) == ".tar.gz"@,
        !has_suffix(lower, ".tar.gz"@) && has_suffix(lower, ".tgz"@) ==> extension_for(url, lower)
            == ".tgz"@,
{
}

/// Otherwise the extension is the address from the byte position `d` of the
/// last dot in the UTF-8 form of the lower-cased address, to the end,
/// wherever that dot stands.
pub proof fn law_extension_cuts_at_last_dot(url: Seq<char>, lower: Seq<char>, d: int)
    requires
        !has_suffix(lower, ".tar.gz"@),
        !has_suffix(lower, ".tgz"@),
        0 <= d < encode_utf8(lower).len(),
        encode_utf8(lower)[d] == 46u8,
        forall|k: int| d < k < encode_utf8(lower).len() ==> encode_utf8(lower)[k] != 46u8,
    ensures
        extension_for(url, lower) == decode_utf8(
            encode_utf8(url).subrange(d, encode_utf8(url).len() as int),
        ),
{
    lemma_last_byte_index_is(encode_utf8(lower), 46u8, d);
}

/// An address with no dot in its lower-cased form, and no two-part ending, is
/// stored with no extension.
pub proof fn law_extension_without_dot_is_empty(url: Seq<char>, lower: Seq<char>)
    ensures
        !has_suffix(lower, ".tar.gz"@) && !has_suffix(lower, ".tgz"@) && (forall|k: int|
            0 <= k < encode_utf8(lower).len() ==> encode_utf8(lower)[k] != 46u8) ==> extension_for(
            url,
            lower,
        ) == Seq::<char>::empty(),
{
    if forall|k: int| 0 <= k < encode_utf8(lower).len() ==> encode_utf8(lower)[k] != 46u8 {
        lemma_last_byte_index_none(encode_utf8(lower), 46u8);
    }
}

/// Decides `cut_ok_for`, given the address and its lower-cased form.
pub fn cut_is_ok_for(url: &str, lower: &str) -> (r: bool)
    ensures
        r == cut_ok_for(url@, lower@),
{
    if ends_with(lower, ".tar.gz") || ends_with(lower, ".tgz") {
        return true;
    }
    match last_dot(lower) {
        None => true,
        Some(d) => url.is_char_boundary(d),
    }
}

/// The extension under which the archive at `url` is stored, given the
/// address's lower-cased form `lower`.
pub fn extension_from_lowered(url: &str, lower: &str) -> (r: String)
    requires
        cut_ok_for(url@, lower@),
    ensures
        r@ == extension_for(url@, lower@),
        has_suffix(lower@, ".tar.gz"@) ==> r@ == ".tar.gz"@,
        !has_suffix(lower@, ".tar.gz"@) && has_suffix(lower@, ".tgz"@) ==> r@ == ".tgz"@,
        forall|d: int|
            #![trigger encode_utf8(lower@)[d]]
            !has_suffix(lower@, ".tar.gz"@) && !has_suffix(lower@, ".tgz"@) && 0 <= d
                < encode_utf8(lower@).len() && encode_utf8(lower@)[d] == 46u8 && (forall|k: int|
                d < k < encode_utf8(lower@).len() ==> encode_utf8(lower@)[k] != 46u8) ==> r@
                == decode_utf8(encode_utf8(url@).subrange(d, encode_utf8(url@).len() as int)),
        !has_suffix(lower@, ".tar.gz"@) && !has_suffix(lower@, ".tgz"@) && (forall|k: int|
            0 <= k < encode_utf8(lower@).len() ==> encode_utf8(lower@)[k] != 46u8) ==> r@
            == Seq::<char>::empty(),
{
    proof {
        law_extension_two_part(url@, lower@);
        law_extension_without_dot_is_empty(url@, lower@);
        assert forall|d: int|
            #![trigger encode_utf8(lower@)[d]]
            !has_suffix(lower@, ".tar.gz"@) && !has_suffix(lower@, ".tgz"@) && 0 <= d
                < encode_utf8(lower@).len() && encode_utf8(lower@)[d] == 46u8 && (forall|k: int|
                d < k < encode_utf8(lower@).len() ==> encode_utf8(lower@)[k] != 46u8) implies extension_for(
            url@,
            lower@,
        ) == decode_utf8(encode_utf8(url@).subrange(d, encode_utf8(url@).len() as int)) by {
            law_extension_cuts_at_last_dot(url@, lower@, d);
        }
    }
    if ends_with(lower, ".tar.gz") {
        return owned(".tar.gz");
    }
    if ends_with(lower, ".tgz") {
        return owned(".tgz");
    }
    match last_dot(lower) {
        Some(d) => {
            let (_, tail) = url.split_at(d);
            proof {
                encode_utf8_decode_utf8(tail@);
            }
            owned(tail)
        },
        None => String::new(),
    }
}

/// Decides `extension_cut_ok`: whether the extension of `url` can be taken
/// without slicing inside a character.
pub fn extension_cut_is_ok(url: &str) -> (r: bool)
    ensures
        r == extension_cut_ok(url@),
{
    let lower = to_lowercase(url);
    cut_is_ok_for(url, lower.as_str())
}

/// The extension under which the archive at `url` is stored.
pub fn archive_extension(url: &str) -> (r: String)
    requires
        extension_cut_ok(url@),
    ensures
        r@ == spec_archive_extension(url@),
{
    let lower = to_lowercase(url);
    extension_from_lowered(url, lower.as_str())
}

/// The extension under which the archive at `url` is stored, or none where
/// taking it would slice the address inside a character.
pub fn checked_archive_extension(url: &str) -> (r: Option<String>)
    ensures
        r is Some <==> extension_cut_ok(url@),
        r is Some ==> r.unwrap()@ == spec_archive_extension(url@),
{
    if extension_cut_is_ok(url) {
        Some(archive_extension(url))
    } else {
        None
    }
}

/// The unpacker that an archive needs.
#[derive(Clone, Copy, Debug, PartialEq, Eq, Structural)]
pub enum ArchiveFormat {
    Zip,
    TarGz,
}

/// Why an archive cannot be unpacked.
#[derive(Debug)]
pub enum ArchiveError {
    /// The path, lower-cased, names no format that is handled.
    Unsupported(String),
}

impl ArchiveError {
    /// The error's text.
    pub fn message(&self) -> (r: String)
        ensures
            match self {
                ArchiveError::Unsupported(p) => r@ == "unsupported archive format: "@ + p@,
            },
    {
        match self {
            ArchiveError::Unsupported(p) => concat2("unsupported archive format: ", p.as_str()),
        }
    }
}

/// The format that the lower-cased path `lower` names, if any.
pub open spec fn format_for(lower: Seq<char>) -> Option<ArchiveFormat> {
    if has_suffix(lower, ".zip"@) {
        Some(ArchiveFormat::Zip)
    } else if has_suffix(lower, ".tar.gz"@) || has_suffix(lower, ".tgz"@) {
        Some(ArchiveFormat::TarGz)
    } else {
        None
    }
}

/// The format that the path names, by its lower-cased form.
pub open spec fn spec_archive_format(path: Seq<char>) -> Option<ArchiveFormat> {
    format_for(lowercase_of(path))
}

/// Chooses the unpacker by the end of the lower-cased path `lower`: `.zip` is a
/// zip archive, `.tar.gz` and `.tgz` a gzipped tar archive; any other name is
/// refused with `lower`.
pub fn format_of_lowered(lower: &str) -> (r: Result<ArchiveFormat, ArchiveError>)
    ensures
        match r {
            Ok(f) => format_for(lower@) == Some(f),
            Err(ArchiveError::Unsupported(p)) => format_for(lower@) is None && p@ == lower@,
        },
{
    if ends_with(lower, ".zip") {
        Ok(ArchiveFormat::Zip)
    } else if ends_with(lower, ".tar.gz") || ends_with(lower, ".tgz") {
        Ok(ArchiveFormat::TarGz)
    } else {
        Err(ArchiveError::Unsupported(owned(lower)))
    }
}

/// Chooses how the archive at `archive_path` is unpacked, by the end of its
/// lower-cased name: `.zip` is a zip archive, `.tar.gz` and `.tgz` a gzipped
/// tar archive; any other name is refused with the lower-cased path.
pub fn extract_archive(archive_path: &str) -> (r: Result<ArchiveFormat, ArchiveError>)
    ensures
        match r {
            Ok(f) => spec_archive_format(archive_path@) == Some(f),
            Err(ArchiveError::Unsupported(p)) => spec_archive_format(archive_path@) is None
                && p@ == lowercase_of(archive_path@),
        },
{
    let lower = to_lowercase(archive_path);
    format_of_lowered(lower.as_str())
}

// ---------------------------------------------------------------- downloads

/// Where and under which names a resource is fetched and unpacked. The
/// directories are the caller's own path values, carried through unchanged.
pub struct DownloadPlan<'a, P> {
    /// The address the archive is fetched from.
    pub url: String,
    /// The directory the archive is stored in while it is unpacked.
    pub download_dir: &'a P,
    /// The directory the unpacked resource is placed in.
    pub extract_dir: &'a P,
    /// The archive's file name within `download_dir`.
    pub archive_name: String,
    /// The name of the resource's directory within `extract_dir`.
    pub output_name: String,
    /// Whether the download reports its progress.
    pub reports_progress: bool,
}

impl RemoteResource {
    /// The plan for fetching this resource into `dest_dir` and unpacking it there,
    /// without progress reports.
    pub fn download_to<'a, P>(&self, dest_dir: &'a P) -> (r: DownloadPlan<'a, P>)
        requires
            extension_cut_ok(self.url@),
        ensures
            r.url@ == self.url@,
            r.download_dir == dest_dir,
            r.extract_dir == dest_dir,
            r.archive_name@ == self.name@ + spec_archive_extension(self.url@),
            r.output_name@ == self.name@,
            !r.reports_progress,
    {
        let mut plan = self.download_to_with_progress(dest_dir, dest_dir);
        plan.reports_progress = false;
        plan
    }

    /// The plan for fetching this resource into `download_dir` as
    /// `name + extension`, unpacking it into `extract_dir/name`, and reporting
    /// the progress of the download.
    pub fn download_to_with_progress<'a, P>(&self, download_dir: &'a P, extract_dir: &'a P) -> (r:
        DownloadPlan<'a, P>)
        requires
            extension_cut_ok(self.url@),
        ensures
            r.url@ == self.url@,
            r.download_dir == download_dir,
            r.extract_dir == extract_dir,
            r.archive_name@ == self.name@ + spec_archive_extension(self.url@),
            r.output_name@ == self.name@,
            r.reports_progress,
    {
        let ext = archive_extension(self.url.as_str());
        let archive_name = concat2(self.name.as_str(), ext.as_str());
        DownloadPlan {
            url: self.url.clone(),
            download_dir,
            extract_dir,
            archive_name,
            output_name: self.name.clone(),
            reports_progress: true,
        }
    }
}

impl RemoteResource {
    /// `download_to`, where the archive's name can be formed; none where the
    /// extension would be cut inside a character of the address.
    pub fn try_download_to<'a, P>(&self, dest_dir: &'a P) -> (r: Option<DownloadPlan<'a, P>>)
        ensures
            r is Some <==> extension_cut_ok(self.url@),
            r is Some ==> {
                let p = r.unwrap();
                &&& p.url@ == self.url@
                &&& p.download_dir == dest_dir
                &&& p.extract_dir == dest_dir
                &&& p.archive_name@ == self.name@ + spec_archive_extension(self.url@)
                &&& p.output_name@ == self.name@
                &&& !p.reports_progress
            },
    {
        if extension_cut_is_ok(self.url.as_str()) {
            Some(self.download_to(dest_dir))
        } else {
            None
        }
    }

    /// `download_to_with_progress`, where the archive's name can be formed; none
    /// where the extension would be cut inside a character of the address.
    pub fn try_download_to_with_progress<'a, P>(
        &self,
        download_dir: &'a P,
        extract_dir: &'a P,
    ) -> (r: Option<DownloadPlan<'a, P>>)
        ensures
            r is Some <==> extension_cut_ok(self.url@),
            r is Some ==> {
                let p = r.unwrap();
                &&& p.url@ == self.url@
                &&& p.download_dir == download_dir
                &&& p.extract_dir == extract_dir
                &&& p.archive_name@ == self.name@ + spec_archive_extension(self.url@)
                &&& p.output_name@ == self.name@
                &&& p.reports_progress
            },
    {
        if extension_cut_is_ok(self.url.as_str()) {
            Some(self.download_to_with_progress(download_dir, extract_dir))
        } else {
            None
        }
    }
}

/// What a response says of its body's length.
#[derive(Debug)]
pub enum ContentLength {
    /// The response has no `content-length` header.
    Absent,
    /// The header is there but is not visible ASCII text.
    Unreadable,
    /// The header's text.
    Text(String),
}

/// The total a download reports: the header's value where it reads as a
/// decimal `u64`, else 0.
pub open spec fn spec_content_total(c: ContentLength) -> u64 {
    match c {
        ContentLength::Absent => 0,
        ContentLength::Unreadable => 0,
        ContentLength::Text(t) => match parse_u64_spec(t@) {
            Some(v) => v,
            None => 0,
        },
    }
}

/// The total is the header's value wherever the header's text reads as a
/// decimal `u64`, whatever that value; 0 where it does not, or where there is
/// no readable header.
pub proof fn law_content_total(c: ContentLength)
    ensures
        match c {
            ContentLength::Text(t) => (forall|v: u64|
                parse_u64_spec(t@) == Some(v) ==> spec_content_total(c) == v) && (parse_u64_spec(
                t@,
            ) is None ==> spec_content_total(c) == 0),
            _ => spec_content_total(c) == 0,
        },
{
}

/// Decides `spec_content_total`.
pub fn content_total(c: &ContentLength) -> (r: u64)
    ensures
        r == spec_content_total(*c),
        match *c {
            ContentLength::Text(t) => (forall|v: u64| parse_u64_spec(t@) == Some(v) ==> r == v)
                && (parse_u64_spec(t@) is None ==> r == 0),
            _ => r == 0,
        },
{
    proof {
        law_content_total(*c);
    }
    match c {
        ContentLength::Absent => 0,
        ContentLength::Unreadable => 0,
        ContentLength::Text(t) => match parse_u64(t.as_str()) {
            Some(v) => v,
            None => 0,
        },
    }
}

/// What to do with a chunk just read from the response body.
#[derive(Clone, Copy, Debug, PartialEq, Eq, Structural)]
pub enum ChunkStep {
    /// Write the chunk's `len` bytes to the file; then, where `report` is set,
    /// report `downloaded` bytes of `total`.
    Write { len: usize, report: bool, downloaded: u64, total: u64 },
    /// The body is exhausted: the file is complete.
    Finished,
}

/// The decisions of one file download, fed by the caller with the response
/// header and the size of each chunk it reads.
pub struct FileDownload<'a, P> {
    pub url: String,
    pub dest: &'a P,
    pub reports_progress: bool,
    pub total: u64,
    pub downloaded: u64,
    pub finished: bool,
}

/// The download of `url` into the file `dest`, without progress reports.
pub fn download_file<'a, P>(url: &str, dest: &'a P) -> (r: FileDownload<'a, P>)
    ensures
        r.url@ == url@,
        r.dest == dest,
        !r.reports_progress,
        r.total == 0,
        r.downloaded == 0,
        !r.finished,
{
    let mut d = download_file_with_progress(url, dest);
    d.reports_progress = false;
    d
}

/// The download of `url` into the file `dest`, reporting its progress after
/// each chunk.
pub fn download_file_with_progress<'a, P>(url: &str, dest: &'a P) -> (r: FileDownload<'a, P>)
    ensures
        r.url@ == url@,
        r.dest == dest,
        r.reports_progress,
        r.total == 0,
        r.downloaded == 0,
        !r.finished,
{
    FileDownload {
        url: owned(url),
        dest,
        reports_progress: true,
        total: 0,
        downloaded: 0,
        finished: false,
    }
}

impl<'a, P> FileDownload<'a, P> {
    /// Takes the total from the response's `content-length` header.
    pub fn on_response(&mut self, content_length: &ContentLength)
        ensures
            final(self).total == spec_content_total(*content_length),
            match *content_length {
                ContentLength::Text(t) => (forall|v: u64|
                    parse_u64_spec(t@) == Some(v) ==> final(self).total == v) && (parse_u64_spec(
                    t@,
                ) is None ==> final(self).total == 0),
                _ => final(self).total == 0,
            },
            final(self).url == old(self).url,
            final(self).dest == old(self).dest,
            final(self).reports_progress == old(self).reports_progress,
            final(self).downloaded == old(self).downloaded,
            final(self).finished == old(self).finished,
    {
        self.total = content_total(content_length);
    }

    /// Decides what follows a read of `n` bytes: the end of the body when `n` is
    /// 0, else the write of the chunk and the new count.
    pub fn on_chunk(&mut self, n: usize) -> (step: ChunkStep)
        requires
            !old(self).finished,
            old(self).downloaded + n <= u64::MAX,
        ensures
            n == 0 ==> step == ChunkStep::Finished && final(self).finished && final(self).downloaded
                == old(self).downloaded,
            n > 0 ==> step == (ChunkStep::Write {
                len: n,
                report: old(self).reports_progress,
                downloaded: final(self).downloaded,
                total: old(self).total,
            }) && !final(self).finished && final(self).downloaded == old(self).downloaded + n,
            final(self).url == old(self).url,
            final(self).dest == old(self).dest,
            final(self).reports_progress == old(self).reports_progress,
            final(self).total == old(self).total,
    {
        if n == 0 {
            self.finished = true;
            ChunkStep::Finished
        } else {
            self.downloaded = self.downloaded + n as u64;
            ChunkStep::Write {
                len: n,
                report: self.reports_progress,
                downloaded: self.downloaded,
                total: self.total,
            }
        }
    }
}

} // verus!
