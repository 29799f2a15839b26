//! The local library: its tracks and its playlists, and how they are read
//! from the property list that the library exports.

use crate::text::chars_of;
use vstd::hash_map::StringHashMap;
use vstd::prelude::*;
use vstd::string::StringExecFns;

verus! {

/// Why a library could not be read.
#[derive(Debug)]
pub enum Error {
    /// The file could not be read; with what the system said.
    XMLFileError(String),
    /// The text is no XML document; with what the parser said.
    XMLParsingError(String),
    /// The document is not laid out as a library; with what is missing.
    XMLLibraryError(String),
}

/// The text that describes the error.
pub open spec fn error_text(e: Error) -> Seq<char> {
    match e {
        Error::XMLFileError(m) => "Encountered error reading XML file: "@ + m@,
        Error::XMLParsingError(m) => "Encountered error parsing XML text: "@ + m@,
        Error::XMLLibraryError(m) => "Encountered error constructing XML library: "@ + m@,
    }
}

impl Error {
    /// The text that describes the error.
    pub fn message(&self) -> (r: String)
        ensures
            r@ == error_text(*self),
    {
        match self {
            Error::XMLFileError(m) => String::from_str("Encountered error reading XML file: ").concat(
                m.as_str(),
            ),
            Error::XMLParsingError(m) => String::from_str(
                "Encountered error parsing XML text: ",
            ).concat(m.as_str()),
            Error::XMLLibraryError(m) => String::from_str(
                "Encountered error constructing XML library: ",
            ).concat(m.as_str()),
        }
    }
}

/// The error of a document that is not laid out as a library.
fn library_error(what: &str) -> (r: Error)
    ensures
        r matches Error::XMLLibraryError(m) && m@ == what@,
{
    Error::XMLLibraryError(String::from_str(what))
}

/// An element of an XML document: its tag, the text that stands before its
/// first child, and its children in their order.
#[derive(Debug)]
pub struct XmlNode {
    /// The local name of the tag.
    pub name: String,
    /// The address of the namespace of the tag, if it has one.
    pub namespace: Option<String>,
    pub text: String,
    pub children: Vec<XmlNode>,
}

/// `elementtree::Element`, an element as the parser builds it. Nothing is
/// known here of what it holds.
#[verifier::external_type_specification]
#[verifier::external_body]
pub struct ExElement(elementtree::Element);

/// The root of the document that `elementtree::Element::from_reader` reads
/// from the bytes; none where it reports an error.
pub uninterp spec fn parsed(bytes: Seq<u8>) -> Option<XmlNode>;

/// Copies an element of `elementtree`: the name and the namespace of its tag,
/// its text, and its children in their order, each copied likewise.
#[verifier::external_body]
fn node_of(element: &elementtree::Element) -> XmlNode {
    let mut children = Vec::new();
    for child in element.children() {
        children.push(node_of(child));
    }
    XmlNode {
        name: element.tag().name().to_owned(),
        namespace: element.tag().ns().map(str::to_owned),
        text: element.text().to_owned(),
        children,
    }
}

/// Calls `elementtree::Element::from_reader` on the bytes and copies the
/// element it returns, or hands on as text what its error shows of itself.
/// Whether an element comes back, and which, depends on the bytes alone;
/// nothing more is claimed than that.
#[verifier::external_body]
fn parse_document(bytes: &[u8]) -> (r: Result<XmlNode, String>)
    ensures
        parsed(bytes@) == match r {
            Ok(root) => Some(root),
            Err(_) => None,
        },
{
    match elementtree::Element::from_reader(bytes) {
        Ok(element) => Ok(node_of(&element)),
        Err(e) => Err(e.to_string()),
    }
}

/// Whether the element has the tag `tag`, in no namespace.
pub open spec fn tagged(node: XmlNode, tag: Seq<char>) -> bool {
    node.name@ == tag && node.namespace is None
}

/// The first of the elements that has the tag, if one has.
pub open spec fn first_tagged(nodes: Seq<XmlNode>, tag: Seq<char>) -> Option<XmlNode>
    decreases nodes.len(),
{
    if nodes.len() == 0 {
        None
    } else if tagged(nodes[0], tag) {
        Some(nodes[0])
    } else {
        first_tagged(nodes.drop_first(), tag)
    }
}

proof fn lemma_first_tagged(nodes: Seq<XmlNode>, tag: Seq<char>, n: int)
    requires
        0 <= n <= nodes.len(),
        forall|k: int| 0 <= k < n ==> !tagged(#[trigger] nodes[k], tag),
        n < nodes.len() ==> tagged(nodes[n], tag),
    ensures
        first_tagged(nodes, tag) == if n < nodes.len() {
            Some(nodes[n])
        } else {
            None
        },
    decreases n,
{
    if n > 0 {
        let rest = nodes.drop_first();
        assert forall|k: int| 0 <= k < n - 1 implies !tagged(#[trigger] rest[k], tag) by {
            assert(rest[k] == nodes[k + 1]);
        }
        lemma_first_tagged(rest, tag, n - 1);
    }
}

/// Whether the string holds the characters of `text`.
fn same_text(s: &String, text: &str) -> (r: bool)
    ensures
        r == (s@ == text@),
{
    *s == String::from_str(text)
}

impl XmlNode {
    /// Whether the element has the tag `tag`, in no namespace.
    pub fn has_tag(&self, tag: &str) -> (r: bool)
        ensures
            r == tagged(*self, tag@),
    {
        self.namespace.is_none() && same_text(&self.name, tag)
    }

    /// The first child that has the tag, if one has.
    pub fn find<'a>(&'a self, tag: &str) -> (r: Option<&'a XmlNode>)
        ensures
            r == match first_tagged(self.children@, tag@) {
                Some(child) => Some(&child),
                None => None,
            },
    {
        let mut i: usize = 0;
        while i < self.children.len()
            invariant
                i <= self.children.len(),
                forall|k: int| 0 <= k < i ==> !tagged(#[trigger] self.children@[k], tag@),
            decreases self.children.len() - i,
        {
            if self.children[i].has_tag(tag) {
                proof {
                    lemma_first_tagged(self.children@, tag@, i as int);
                }
                return Some(&self.children[i]);
            }
            i = i + 1;
        }
        proof {
            lemma_first_tagged(self.children@, tag@, i as int);
        }
        None
    }
}

/// The number that a decimal digit stands for.
pub open spec fn digit(c: char) -> Option<nat> {
    if '0' <= c && c <= '9' {
        Some((c as nat - '0' as nat) as nat)
    } else {
        None
    }
}

/// The number that a run of decimal digits stands for; none where one of the
/// characters is no digit.
pub open spec fn digits_value(s: Seq<char>) -> Option<nat>
    decreases s.len(),
{
    if s.len() == 0 {
        Some(0)
    } else {
        match (digits_value(s.drop_last()), digit(s.last())) {
            (Some(v), Some(d)) => Some(v * 10 + d),
            _ => None,
        }
    }
}

/// The number that the text stands for: decimal digits, at least one, with
/// or without a plus sign before them, and no more than the machine can
/// hold; none for any other text.
pub open spec fn decimal(s: Seq<char>) -> Option<usize> {
    let body = if s.len() > 0 && s[0] == '+' {
        s.drop_first()
    } else {
        s
    };
    match digits_value(body) {
        Some(v) if body.len() > 0 && v <= usize::MAX => Some(v as usize),
        _ => None,
    }
}

/// The value of a run of digits is at least the value of each of its starts,
/// and a run has a value only if each of its starts has one.
proof fn lemma_digits_grow(s: Seq<char>, n: int)
    requires
        0 <= n <= s.len(),
    ensures
        digits_value(s) is Some ==> digits_value(s.take(n)) is Some && digits_value(s.take(n))->0
            <= digits_value(s)->0,
    decreases s.len(),
{
    if n == s.len() {
        assert(s.take(n) == s);
    } else {
        lemma_digits_grow(s.drop_last(), n);
        assert(s.drop_last().take(n) == s.take(n));
    }
}

/// Reads a number as `decimal` says.
pub fn parse_usize(text: &str) -> (r: Option<usize>)
    ensures
        r == decimal(text@),
{
    let chars = chars_of(text);
    let start: usize = if chars.len() > 0 && chars[0] == '+' {
        1
    } else {
        0
    };
    let ghost body = chars@.skip(start as int);
    proof {
        if start == 1 {
            assert(body == text@.drop_first());
        } else {
            assert(body == text@);
        }
    }
    if start == chars.len() {
        return None;
    }
    let mut value: usize = 0;
    let mut i: usize = start;
    while i < chars.len()
        invariant
            start <= i <= chars.len(),
            start < chars.len(),
            body == chars@.skip(start as int),
            decimal(text@) == (match digits_value(body) {
                Some(v) if v <= usize::MAX => Some(v as usize),
                _ => None,
            }),
            digits_value(body.take(i - start)) == Some(value as nat),
        decreases chars.len() - i,
    {
        let c = chars[i];
        proof {
            assert(body.take(i - start + 1).drop_last() == body.take(i - start));
            assert(body.take(i - start + 1).last() == c);
            lemma_digits_grow(body, i - start + 1);
        }
        if c < '0' || c > '9' {
            assert(digit(c) is None);
            assert(digits_value(body) is None);
            return None;
        }
        let d: usize = (c as u32 - '0' as u32) as usize;
        assert(digit(c) == Some(d as nat));
        if value > (usize::MAX - d) / 10 {
            assert(value * 10 + d > usize::MAX);
            return None;
        }
        value = value * 10 + d;
        i = i + 1;
    }
    assert(body.take(chars.len() - start) == body);
    Some(value)
}

/// The children of an element two by two: the text of the first of each two,
/// and the second. A child that is left over at the end is passed over.
pub open spec fn pairs_of(children: Seq<XmlNode>) -> Seq<(Seq<char>, XmlNode)> {
    Seq::new(children.len() / 2, |i: int| (children[2 * i].text@, children[2 * i + 1]))
}

/// The entries of the map into which the pairs are put in their order: of two
/// pairs with one key, the later one stays.
pub open spec fn entries(pairs: Seq<(Seq<char>, XmlNode)>) -> Map<Seq<char>, XmlNode>
    decreases pairs.len(),
{
    if pairs.len() == 0 {
        Map::empty()
    } else {
        entries(pairs.drop_last()).insert(pairs.last().0, pairs.last().1)
    }
}

/// The keys of a dictionary element, each with the element that goes with it.
pub open spec fn gathered(children: Seq<XmlNode>) -> Map<Seq<char>, XmlNode> {
    entries(pairs_of(children))
}

/// The elements that the entries refer to.
pub open spec fn referred(entries: Map<Seq<char>, &XmlNode>) -> Map<Seq<char>, XmlNode> {
    entries.map_values(|node: &XmlNode| *node)
}

/// What a map of keys and elements stands for.
pub open spec fn data_view(data: StringHashMap<&XmlNode>) -> Map<Seq<char>, XmlNode> {
    referred(data@)
}

/// The element that goes with the key, if the key is there.
pub open spec fn lookup(data: Map<Seq<char>, XmlNode>, key: Seq<char>) -> Option<XmlNode> {
    if data.contains_key(key) {
        Some(data[key])
    } else {
        None
    }
}

/// The keys of a dictionary element with the elements that go with them. A
/// dictionary without a pair is an error.
pub fn gather_element_data<'a>(element: &'a XmlNode) -> (r: Result<
    StringHashMap<&'a XmlNode>,
    Error,
>)
    ensures
        match r {
            Ok(data) => element.children@.len() >= 2 && data_view(data) == gathered(
                element.children@,
            ),
            Err(e) => {
                &&& element.children@.len() < 2
                &&& e matches Error::XMLLibraryError(m)
                &&& m@ == "Failed to gather node data"@
            },
        },
{
    let count = element.children.len() / 2;
    if count == 0 {
        return Err(library_error("Failed to gather node data"));
    }
    let ghost pairs = pairs_of(element.children@);
    let mut data: StringHashMap<&'a XmlNode> = StringHashMap::new();
    assert(referred(data@) == entries(pairs.take(0)));
    let mut i: usize = 0;
    while i < count
        invariant
            i <= count,
            count == element.children@.len() / 2,
            2 * count <= element.children.len(),
            pairs == pairs_of(element.children@),
            referred(data@) == entries(pairs.take(i as int)),
        decreases count - i,
    {
        let key = element.children[2 * i].text.clone();
        let value = &element.children[2 * i + 1];
        let ghost before = data@;
        data.insert(key, value);
        assert(referred(data@) == referred(before).insert(key@, *value));
        assert(pairs.take(i + 1).drop_last() == pairs.take(i as int));
        i = i + 1;
    }
    assert(pairs.take(count as int) == pairs);
    Ok(data)
}

/// The element that goes with the key, if the key is there.
pub fn get<'a>(data: &StringHashMap<&'a XmlNode>, key: &str) -> (r: Option<&'a XmlNode>)
    ensures
        r == match lookup(data_view(*data), key@) {
            Some(node) => Some(&node),
            None => None,
        },
{
    match data.get(key) {
        Some(node) => Some(*node),
        None => None,
    }
}

/// The text of the element that goes with the key. It says nothing where the
/// key is missing.
pub open spec fn text_at(data: Map<Seq<char>, XmlNode>, key: Seq<char>) -> Seq<char> {
    lookup(data, key)->0.text@
}

/// What a dictionary lacks to describe a track: the first of name, artist,
/// number and persistent identifier that is missing; none where it describes
/// one.
pub open spec fn track_fault(data: Map<Seq<char>, XmlNode>) -> Option<Seq<char>> {
    if lookup(data, "Name"@) is None {
        Some("Cannot find track name."@)
    } else if lookup(data, "Artist"@) is None {
        Some("Cannot find track artist."@)
    } else if lookup(data, "Track ID"@) is None || decimal(text_at(data, "Track ID"@)) is None {
        Some("Cannot find track id"@)
    } else if lookup(data, "Persistent ID"@) is None {
        Some("Cannot find track persistent id."@)
    } else {
        None
    }
}

/// The track that a dictionary without fault describes.
pub open spec fn track_of(data: Map<Seq<char>, XmlNode>) -> TrackView {
    TrackView {
        name: text_at(data, "Name"@),
        artist: text_at(data, "Artist"@),
        id: decimal(text_at(data, "Track ID"@))->0,
        persistent_id: text_at(data, "Persistent ID"@),
    }
}

/// What a [`Track`] stands for.
pub struct TrackView {
    pub name: Seq<char>,
    pub artist: Seq<char>,
    pub id: usize,
    pub persistent_id: Seq<char>,
}

/// A track of the local library. Its persistent identifier survives a new
/// import of the library; two tracks are equal when they share it.
#[derive(Clone, Debug)]
pub struct Track {
    name: String,
    artist: String,
    id: usize,
    persistent_id: String,
}

impl View for Track {
    type V = TrackView;

    closed spec fn view(&self) -> TrackView {
        TrackView {
            name: self.name@,
            artist: self.artist@,
            id: self.id,
            persistent_id: self.persistent_id@,
        }
    }
}

impl Track {
    pub fn new(name: String, artist: String, id: usize, persistent_id: String) -> (r: Track)
        ensures
            r@ == (TrackView {
                name: name@,
                artist: artist@,
                id: id,
                persistent_id: persistent_id@,
            }),
    {
        Track { name, artist, id, persistent_id }
    }

    /// The track that a dictionary of the library describes. A dictionary
    /// that lacks one of the four entries, or whose number is no number,
    /// describes none.
    pub fn from_element_data(data: StringHashMap<&XmlNode>) -> (r: Result<Track, Error>)
        ensures
            match r {
                Ok(track) => track_fault(data_view(data)) is None && track@ == track_of(
                    data_view(data),
                ),
                Err(e) => {
                    &&& e matches Error::XMLLibraryError(m)
                    &&& track_fault(data_view(data)) == Some(m@)
                },
            },
    {
        let name = match get(&data, "Name") {
            Some(node) => node.text.clone(),
            None => return Err(library_error("Cannot find track name.")),
        };
        let artist = match get(&data, "Artist") {
            Some(node) => node.text.clone(),
            None => return Err(library_error("Cannot find track artist.")),
        };
        let id = match get(&data, "Track ID") {
            Some(node) => match parse_usize(node.text.as_str()) {
                Some(id) => id,
                None => return Err(library_error("Cannot find track id")),
            },
            None => return Err(library_error("Cannot find track id")),
        };
        let persistent_id = match get(&data, "Persistent ID") {
            Some(node) => node.text.clone(),
            None => return Err(library_error("Cannot find track persistent id.")),
        };
        Ok(Track { name, artist, id, persistent_id })
    }

    pub fn name(&self) -> (r: String)
        ensures
            r@ == self@.name,
    {
        self.name.clone()
    }

    pub fn artist(&self) -> (r: String)
        ensures
            r@ == self@.artist,
    {
        self.artist.clone()
    }

    pub fn id(&self) -> (r: usize)
        ensures
            r == self@.id,
    {
        self.id
    }

    pub fn persistent_id(&self) -> (r: String)
        ensures
            r@ == self@.persistent_id,
    {
        self.persistent_id.clone()
    }
}


/// What a [`Playlist`] stands for.
pub struct PlaylistView {
    pub name: Seq<char>,
    pub description: Seq<char>,
    pub track_ids: Seq<usize>,
}

/// A playlist of the local library: the numbers of its tracks, in order.
#[derive(Clone, Debug)]
pub struct Playlist {
    name: String,
    description: String,
    track_ids: Vec<usize>,
}

impl View for Playlist {
    type V = PlaylistView;

    closed spec fn view(&self) -> PlaylistView {
        PlaylistView {
            name: self.name@,
            description: self.description@,
            track_ids: self.track_ids@,
        }
    }
}

impl PartialEq for Track {
    fn eq(&self, other: &Track) -> (r: bool) {
        self.persistent_id == other.persistent_id
    }
}

impl vstd::std_specs::cmp::PartialEqSpecImpl for Track {
    open spec fn obeys_eq_spec() -> bool {
        true
    }

    open spec fn eq_spec(&self, other: &Track) -> bool {
        self@.persistent_id == other@.persistent_id
    }
}

/// The first number among the texts of the elements, if one is a number.
pub open spec fn first_number(nodes: Seq<XmlNode>) -> Option<usize>
    decreases nodes.len(),
{
    if nodes.len() == 0 {
        None
    } else if decimal(nodes[0].text@) is Some {
        decimal(nodes[0].text@)
    } else {
        first_number(nodes.drop_first())
    }
}

proof fn lemma_first_number(nodes: Seq<XmlNode>, n: int)
    requires
        0 <= n <= nodes.len(),
        forall|k: int| 0 <= k < n ==> decimal((#[trigger] nodes[k]).text@) is None,
        n < nodes.len() ==> decimal(nodes[n].text@) is Some,
    ensures
        first_number(nodes) == if n < nodes.len() {
            decimal(nodes[n].text@)
        } else {
            None
        },
    decreases n,
{
    if n > 0 {
        let rest = nodes.drop_first();
        assert forall|k: int| 0 <= k < n - 1 implies decimal((#[trigger] rest[k]).text@) is None by {
            assert(rest[k] == nodes[k + 1]);
        }
        lemma_first_number(rest, n - 1);
    }
}

/// The numbers of the tracks that the items of a playlist name: of each item
/// the first number among its children; an item without one is passed over.
pub open spec fn item_ids(items: Seq<XmlNode>) -> Seq<usize>
    decreases items.len(),
{
    if items.len() == 0 {
        Seq::empty()
    } else {
        match first_number(items.last().children@) {
            Some(id) => item_ids(items.drop_last()).push(id),
            None => item_ids(items.drop_last()),
        }
    }
}

/// What a dictionary lacks to describe a playlist: the first of name,
/// description and items that is missing; none where it describes one.
pub open spec fn playlist_fault(data: Map<Seq<char>, XmlNode>) -> Option<Seq<char>> {
    if lookup(data, "Name"@) is None {
        Some("Could not find playlist name"@)
    } else if lookup(data, "Description"@) is None {
        Some("Could not find playlist description"@)
    } else if lookup(data, "Playlist Items"@) is None {
        Some("Could not find playlist tracks"@)
    } else {
        None
    }
}

/// The playlist that a dictionary without fault describes.
pub open spec fn playlist_of(data: Map<Seq<char>, XmlNode>) -> PlaylistView {
    PlaylistView {
        name: text_at(data, "Name"@),
        description: text_at(data, "Description"@),
        track_ids: item_ids(lookup(data, "Playlist Items"@)->0.children@),
    }
}

/// The first number among the texts of the children.
fn number_of_item(item: &XmlNode) -> (r: Option<usize>)
    ensures
        r == first_number(item.children@),
{
    let mut i: usize = 0;
    while i < item.children.len()
        invariant
            i <= item.children.len(),
            forall|k: int| 0 <= k < i ==> decimal((#[trigger] item.children@[k]).text@) is None,
        decreases item.children.len() - i,
    {
        let number = parse_usize(item.children[i].text.as_str());
        if number.is_some() {
            proof {
                lemma_first_number(item.children@, i as int);
            }
            return number;
        }
        i = i + 1;
    }
    proof {
        lemma_first_number(item.children@, i as int);
    }
    None
}

impl Playlist {
    pub fn new(name: String, description: String, track_ids: Vec<usize>) -> (r: Playlist)
        ensures
            r@ == (PlaylistView {
                name: name@,
                description: description@,
                track_ids: track_ids@,
            }),
    {
        Playlist { name, description, track_ids }
    }

    /// The playlist that a dictionary of the library describes. A dictionary
    /// that lacks name, description or items describes none.
    pub fn from_element_data(data: StringHashMap<&XmlNode>) -> (r: Result<Playlist, Error>)
        ensures
            match r {
                Ok(playlist) => playlist_fault(data_view(data)) is None && playlist@
                    == playlist_of(data_view(data)),
                Err(e) => {
                    &&& e matches Error::XMLLibraryError(m)
                    &&& playlist_fault(data_view(data)) == Some(m@)
                },
            },
    {
        let name = match get(&data, "Name") {
            Some(node) => node.text.clone(),
            None => return Err(library_error("Could not find playlist name")),
        };
        let description = match get(&data, "Description") {
            Some(node) => node.text.clone(),
            None => return Err(library_error("Could not find playlist description")),
        };
        let items = match get(&data, "Playlist Items") {
            Some(node) => node,
            None => return Err(library_error("Could not find playlist tracks")),
        };
        let mut track_ids: Vec<usize> = Vec::new();
        let mut i: usize = 0;
        while i < items.children.len()
            invariant
                i <= items.children.len(),
                track_ids@ == item_ids(items.children@.take(i as int)),
            decreases items.children.len() - i,
        {
            assert(items.children@.take(i + 1).drop_last() == items.children@.take(i as int));
            match number_of_item(&items.children[i]) {
                Some(id) => track_ids.push(id),
                None => {},
            }
            i = i + 1;
        }
        assert(items.children@.take(items.children.len() as int) == items.children@);
        Ok(Playlist { name, description, track_ids })
    }

    pub fn name(&self) -> (r: String)
        ensures
            r@ == self@.name,
    {
        self.name.clone()
    }

    pub fn description(&self) -> (r: String)
        ensures
            r@ == self@.description,
    {
        self.description.clone()
    }

    pub fn track_ids(&self) -> (r: &Vec<usize>)
        ensures
            r@ == self@.track_ids,
    {
        &self.track_ids
    }
}

/// What a [`Library`] stands for.
pub struct LibraryView {
    pub tracks: Seq<TrackView>,
    pub playlists: Seq<PlaylistView>,
}

/// The tracks and the playlists of a local library. No two of its tracks have
/// the same persistent identifier.
#[derive(Debug)]
pub struct Library {
    tracks: Vec<Track>,
    playlists: Vec<Playlist>,
}

/// What a sequence of tracks stands for.
pub open spec fn tracks_view(tracks: Seq<Track>) -> Seq<TrackView> {
    tracks.map_values(|t: Track| t@)
}

/// What a sequence of playlists stands for.
pub open spec fn playlists_view(playlists: Seq<Playlist>) -> Seq<PlaylistView> {
    playlists.map_values(|p: Playlist| p@)
}

/// Whether one of the tracks has the persistent identifier.
pub open spec fn has_persistent_id(tracks: Seq<TrackView>, id: Seq<char>) -> bool {
    exists|i: int| 0 <= i < tracks.len() && (#[trigger] tracks[i]).persistent_id == id
}

/// No two tracks have the same persistent identifier.
pub open spec fn unique_ids(tracks: Seq<TrackView>) -> bool {
    forall|i: int, j: int|
        0 <= i < j < tracks.len() ==> (#[trigger] tracks[i]).persistent_id != (
        #[trigger] tracks[j]).persistent_id
}

/// The tracks after `t` is offered: unchanged where one has its persistent
/// identifier, else with `t` at the end.
pub open spec fn offered(tracks: Seq<TrackView>, t: TrackView) -> Seq<TrackView> {
    if has_persistent_id(tracks, t.persistent_id) {
        tracks
    } else {
        tracks.push(t)
    }
}

/// Whether the element is a dictionary that describes a track.
pub open spec fn describes_track(node: XmlNode) -> bool {
    tagged(node, "dict"@) && node.children@.len() >= 2 && track_fault(gathered(node.children@))
        is None
}

/// The tracks that the elements describe, each persistent identifier once:
/// of two tracks that share it, the first. An element that describes no track
/// is passed over.
pub open spec fn tracks_of(nodes: Seq<XmlNode>) -> Seq<TrackView>
    decreases nodes.len(),
{
    if nodes.len() == 0 {
        Seq::empty()
    } else if describes_track(nodes.last()) {
        offered(tracks_of(nodes.drop_last()), track_of(gathered(nodes.last().children@)))
    } else {
        tracks_of(nodes.drop_last())
    }
}

/// Whether the element is a dictionary that describes a playlist.
pub open spec fn describes_playlist(node: XmlNode) -> bool {
    tagged(node, "dict"@) && node.children@.len() >= 2 && playlist_fault(
        gathered(node.children@),
    ) is None
}

/// The playlists that the elements describe, in their order. An element that
/// describes no playlist is passed over.
pub open spec fn playlists_of(nodes: Seq<XmlNode>) -> Seq<PlaylistView>
    decreases nodes.len(),
{
    if nodes.len() == 0 {
        Seq::empty()
    } else if describes_playlist(nodes.last()) {
        playlists_of(nodes.drop_last()).push(playlist_of(gathered(nodes.last().children@)))
    } else {
        playlists_of(nodes.drop_last())
    }
}

/// What the document with this root holds: the library, or what the document
/// lacks to be one. The library is the first dictionary under the root; its
/// entries `Tracks` and `Playlists` hold the dictionaries of the tracks and
/// of the playlists.
pub open spec fn library_of(root: XmlNode) -> Result<LibraryView, Seq<char>> {
    match first_tagged(root.children@, "dict"@) {
        None => Err("Could not find library dict"@),
        Some(library) => if library.children@.len() < 2 {
            Err("Failed to gather node data"@)
        } else {
            let data = gathered(library.children@);
            match (lookup(data, "Tracks"@), lookup(data, "Playlists"@)) {
                (None, _) => Err("Could not find tracks dict"@),
                (Some(_), None) => Err("Could not find playlists array"@),
                (Some(tracks), Some(playlists)) => Ok(
                    LibraryView {
                        tracks: tracks_of(tracks.children@),
                        playlists: playlists_of(playlists.children@),
                    },
                ),
            }
        },
    }
}

/// Whether `r` is what `expected` says: the library, or the error of a
/// document that is not laid out as one, with the text that says what is
/// missing.
pub open spec fn reads_as(r: Result<Library, Error>, expected: Result<LibraryView, Seq<char>>) -> bool {
    match (r, expected) {
        (Ok(library), Ok(view)) => library@ == view,
        (Err(Error::XMLLibraryError(m)), Err(text)) => m@ == text,
        _ => false,
    }
}

impl View for Library {
    type V = LibraryView;

    closed spec fn view(&self) -> LibraryView {
        LibraryView {
            tracks: tracks_view(self.tracks@),
            playlists: playlists_view(self.playlists@),
        }
    }
}

/// Whether one of the tracks has the persistent identifier.
fn holds_persistent_id(tracks: &Vec<Track>, id: &String) -> (r: bool)
    ensures
        r == has_persistent_id(tracks_view(tracks@), id@),
{
    let mut i: usize = 0;
    while i < tracks.len()
        invariant
            i <= tracks.len(),
            forall|k: int|
                0 <= k < i ==> (#[trigger] tracks_view(tracks@)[k]).persistent_id != id@,
        decreases tracks.len() - i,
    {
        if tracks[i].persistent_id == *id {
            assert(tracks_view(tracks@)[i as int].persistent_id == id@);
            return true;
        }
        i = i + 1;
    }
    false
}

/// The tracks that the children of the element describe.
fn collect_tracks(node: &XmlNode) -> (r: Vec<Track>)
    ensures
        tracks_view(r@) == tracks_of(node.children@),
        unique_ids(tracks_view(r@)),
{
    let mut out: Vec<Track> = Vec::new();
    let mut i: usize = 0;
    while i < node.children.len()
        invariant
            i <= node.children.len(),
            tracks_view(out@) == tracks_of(node.children@.take(i as int)),
            unique_ids(tracks_view(out@)),
        decreases node.children.len() - i,
    {
        assert(node.children@.take(i + 1).drop_last() == node.children@.take(i as int));
        let child = &node.children[i];
        if child.has_tag("dict") {
            match gather_element_data(child) {
                Ok(data) => match Track::from_element_data(data) {
                    Ok(track) => {
                        if !holds_persistent_id(&out, &track.persistent_id) {
                            let ghost before = out@;
                            out.push(track);
                            assert(tracks_view(out@) == tracks_view(before).push(track@));
                        }
                    },
                    Err(_) => {},
                },
                Err(_) => {},
            }
        }
        i = i + 1;
    }
    assert(node.children@.take(node.children.len() as int) == node.children@);
    out
}

/// The playlists that the children of the element describe.
fn collect_playlists(node: &XmlNode) -> (r: Vec<Playlist>)
    ensures
        playlists_view(r@) == playlists_of(node.children@),
{
    let mut out: Vec<Playlist> = Vec::new();
    let mut i: usize = 0;
    while i < node.children.len()
        invariant
            i <= node.children.len(),
            playlists_view(out@) == playlists_of(node.children@.take(i as int)),
        decreases node.children.len() - i,
    {
        assert(node.children@.take(i + 1).drop_last() == node.children@.take(i as int));
        let child = &node.children[i];
        if child.has_tag("dict") {
            match gather_element_data(child) {
                Ok(data) => match Playlist::from_element_data(data) {
                    Ok(playlist) => {
                        let ghost before = out@;
                        out.push(playlist);
                        assert(playlists_view(out@) == playlists_view(before).push(playlist@));
                    },
                    Err(_) => {},
                },
                Err(_) => {},
            }
        }
        i = i + 1;
    }
    assert(node.children@.take(node.children.len() as int) == node.children@);
    out
}

impl Library {
    #[verifier::type_invariant]
    spec fn well_formed(&self) -> bool {
        unique_ids(tracks_view(self.tracks@))
    }

    /// The library that the document with this root holds.
    pub fn from_root(root: &XmlNode) -> (r: Result<Library, Error>)
        ensures
            reads_as(r, library_of(*root)),
    {
        let library = match root.find("dict") {
            Some(node) => node,
            None => return Err(library_error("Could not find library dict")),
        };
        let data = match gather_element_data(library) {
            Ok(data) => data,
            Err(e) => return Err(e),
        };
        let tracks = match get(&data, "Tracks") {
            Some(node) => collect_tracks(node),
            None => return Err(library_error("Could not find tracks dict")),
        };
        let playlists = match get(&data, "Playlists") {
            Some(node) => collect_playlists(node),
            None => return Err(library_error("Could not find playlists array")),
        };
        Ok(Library { tracks, playlists })
    }

    /// The library that the bytes of an XML document hold. Bytes that are no
    /// XML document give a parsing error.
    pub fn from_xml(bytes: &[u8]) -> (r: Result<Library, Error>)
        ensures
            match parsed(bytes@) {
                Some(root) => reads_as(r, library_of(root)),
                None => r matches Err(Error::XMLParsingError(_)),
            },
    {
        match parse_document(bytes) {
            Ok(root) => Library::from_root(&root),
            Err(text) => Err(Error::XMLParsingError(text)),
        }
    }

    /// The tracks, in the order of the document.
    pub fn tracks(&self) -> (r: &Vec<Track>)
        ensures
            tracks_view(r@) == self@.tracks,
            unique_ids(self@.tracks),
    {
        proof {
            use_type_invariant(self);
        }
        &self.tracks
    }

    /// The playlists, in the order of the document.
    pub fn playlists(&self) -> (r: &Vec<Playlist>)
        ensures
            playlists_view(r@) == self@.playlists,
    {
        &self.playlists
    }
}

} // verus!
