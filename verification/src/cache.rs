//! The identity cache: confirmed associations between a local track and a
//! remote track, queryable by either identifier.

use vstd::prelude::*;

verus! {

/// An identifier in one of the two namespaces.
pub enum TrackID {
    /// The identifier the remote catalogue gives a track.
    SpotifyID(String),
    /// The persistent identifier the local library gives a track.
    ItunesID(String),
}

/// What a [`TrackID`] stands for.
pub enum Key {
    SpotifyID(Seq<char>),
    ItunesID(Seq<char>),
}

impl View for TrackID {
    type V = Key;

    open spec fn view(&self) -> Key {
        match *self {
            TrackID::SpotifyID(s) => Key::SpotifyID(s@),
            TrackID::ItunesID(s) => Key::ItunesID(s@),
        }
    }
}

/// What a [`CacheTrack`] stands for.
pub struct Record {
    pub name: Seq<char>,
    pub spotify_id: Option<Seq<char>>,
    pub itunes_id: Option<Seq<char>>,
}

/// One confirmed association. Either identifier may be absent.
#[derive(Clone, Debug)]
pub struct CacheTrack {
    name: String,
    spotify_id: Option<String>,
    itunes_id: Option<String>,
}

/// The characters of an identifier that may be absent.
pub open spec fn id_view(id: Option<String>) -> Option<Seq<char>> {
    match id {
        Some(s) => Some(s@),
        None => None,
    }
}

/// Two records are the same identity when they carry the same identifier in
/// at least one namespace. An absent identifier matches nothing, so a record
/// without identifiers is not even the same identity as itself.
pub open spec fn same_identity(a: Record, b: Record) -> bool {
    ||| (a.spotify_id is Some && a.spotify_id == b.spotify_id)
    ||| (a.itunes_id is Some && a.itunes_id == b.itunes_id)
}

/// Whether the record carries `id` in the namespace of `id`.
pub open spec fn carries(r: Record, id: Key) -> bool {
    match id {
        Key::SpotifyID(s) => r.spotify_id == Some(s),
        Key::ItunesID(s) => r.itunes_id == Some(s),
    }
}

/// Whether some record carries `id`.
pub open spec fn holds(records: Seq<Record>, id: Key) -> bool {
    exists|i: int| 0 <= i < records.len() && carries(#[trigger] records[i], id)
}

/// Whether some record is the same identity as `r`.
pub open spec fn known(records: Seq<Record>, r: Record) -> bool {
    exists|i: int| 0 <= i < records.len() && same_identity(#[trigger] records[i], r)
}

/// The records after `r` is offered: unchanged where `r` is known, else with
/// `r` at the end.
pub open spec fn inserted(records: Seq<Record>, r: Record) -> Seq<Record> {
    if known(records, r) {
        records
    } else {
        records.push(r)
    }
}

/// The records after each record of `rs` is offered in turn.
pub open spec fn inserted_all(records: Seq<Record>, rs: Seq<Record>) -> Seq<Record>
    decreases rs.len(),
{
    if rs.len() == 0 {
        records
    } else {
        inserted(inserted_all(records, rs.drop_last()), rs.last())
    }
}

/// No two records are the same identity.
pub open spec fn distinct(records: Seq<Record>) -> bool {
    forall|i: int, j: int|
        0 <= i < j < records.len() ==> !same_identity(#[trigger] records[i], #[trigger] records[j])
}

/// What a sequence of records stands for.
pub open spec fn records_view(tracks: Seq<CacheTrack>) -> Seq<Record> {
    tracks.map_values(|t: CacheTrack| t@)
}

impl View for CacheTrack {
    type V = Record;

    closed spec fn view(&self) -> Record {
        Record {
            name: self.name@,
            spotify_id: id_view(self.spotify_id),
            itunes_id: id_view(self.itunes_id),
        }
    }
}

/// Whether both identifiers are present and equal.
fn ids_agree(a: &Option<String>, b: &Option<String>) -> (r: bool)
    ensures
        r == (id_view(*a) is Some && id_view(*a) == id_view(*b)),
{
    match (a, b) {
        (Some(x), Some(y)) => {
            *x == *y
        },
        _ => false,
    }
}

impl CacheTrack {
    pub fn new(name: String, spotify_id: Option<String>, itunes_id: Option<String>) -> (r: CacheTrack)
        ensures
            r@ == (Record {
                name: name@,
                spotify_id: id_view(spotify_id),
                itunes_id: id_view(itunes_id),
            }),
    {
        CacheTrack { name, spotify_id, itunes_id }
    }

    pub fn name(&self) -> (r: &String)
        ensures
            r@ == self@.name,
    {
        &self.name
    }

    pub fn spotify_id(&self) -> (r: &Option<String>)
        ensures
            id_view(*r) == self@.spotify_id,
    {
        &self.spotify_id
    }

    pub fn itunes_id(&self) -> (r: &Option<String>)
        ensures
            id_view(*r) == self@.itunes_id,
    {
        &self.itunes_id
    }

    /// Whether the two records are the same identity.
    pub fn same_identity(&self, other: &CacheTrack) -> (r: bool)
        ensures
            r == same_identity(self@, other@),
    {
        ids_agree(&self.spotify_id, &other.spotify_id) || ids_agree(
            &self.itunes_id,
            &other.itunes_id,
        )
    }

    /// Whether the record carries `id` in the namespace of `id`.
    pub fn carries(&self, id: &TrackID) -> (r: bool)
        ensures
            r == carries(self@, id@),
    {
        match id {
            TrackID::SpotifyID(s) => match &self.spotify_id {
                Some(own) => *own == *s,
                None => false,
            },
            TrackID::ItunesID(s) => match &self.itunes_id {
                Some(own) => *own == *s,
                None => false,
            },
        }
    }
}

impl PartialEq for CacheTrack {
    fn eq(&self, other: &CacheTrack) -> (r: bool) {
        self.same_identity(other)
    }
}

impl vstd::std_specs::cmp::PartialEqSpecImpl for CacheTrack {
    open spec fn obeys_eq_spec() -> bool {
        true
    }

    open spec fn eq_spec(&self, other: &CacheTrack) -> bool {
        same_identity(self@, other@)
    }
}

/// The set of confirmed associations, in the order in which they were
/// accepted. No two of its records are the same identity.
#[derive(Debug)]
pub struct Cache {
    tracks: Vec<CacheTrack>,
}

impl View for Cache {
    type V = Seq<Record>;

    closed spec fn view(&self) -> Seq<Record> {
        records_view(self.tracks@)
    }
}

impl Cache {
    #[verifier::type_invariant]
    spec fn well_formed(&self) -> bool {
        distinct(records_view(self.tracks@))
    }

    /// The empty cache.
    pub fn new() -> (r: Cache)
        ensures
            r@ == Seq::<Record>::empty(),
    {
        Cache { tracks: Vec::new() }
    }

    /// The number of records.
    pub fn len(&self) -> (r: usize)
        ensures
            r == self@.len(),
    {
        self.tracks.len()
    }

    /// Whether some record carries `id`.
    pub fn contains(&self, id: TrackID) -> (r: bool)
        ensures
            r == holds(self@, id@),
    {
        let mut i: usize = 0;
        while i < self.tracks.len()
            invariant
                i <= self.tracks.len(),
                forall|k: int| 0 <= k < i ==> !carries(#[trigger] self@[k], id@),
            decreases self.tracks.len() - i,
        {
            if self.tracks[i].carries(&id) {
                assert(carries(self@[i as int], id@));
                return true;
            }
            i = i + 1;
        }
        false
    }

    /// Whether some record is the same identity as `track`.
    pub fn knows(&self, track: &CacheTrack) -> (r: bool)
        ensures
            r == known(self@, track@),
    {
        let mut i: usize = 0;
        while i < self.tracks.len()
            invariant
                i <= self.tracks.len(),
                forall|k: int| 0 <= k < i ==> !same_identity(#[trigger] self@[k], track@),
            decreases self.tracks.len() - i,
        {
            if self.tracks[i].same_identity(track) {
                assert(same_identity(self@[i as int], track@));
                return true;
            }
            i = i + 1;
        }
        false
    }

    /// Adds the record unless one of the same identity is there already; the
    /// record that was there first stays.
    pub fn insert(&mut self, track: CacheTrack)
        ensures
            final(self)@ == inserted(old(self)@, track@),
            distinct(final(self)@),
    {
        proof {
            use_type_invariant(&*self);
        }
        if !self.knows(&track) {
            let mut taken = Cache::new();
            core::mem::swap(self, &mut taken);
            let mut tracks = taken.tracks;
            tracks.push(track);
            assert(records_view(tracks@) == old(self)@.push(track@));
            *self = Cache { tracks };
        }
    }

    /// Adds the association of `name` with the two identifiers unless a record
    /// of the same identity is there already.
    pub fn cache_track(
        &mut self,
        name: String,
        spotify_id: Option<String>,
        itunes_id: Option<String>,
    )
        ensures
            final(self)@ == inserted(
                old(self)@,
                Record {
                    name: name@,
                    spotify_id: id_view(spotify_id),
                    itunes_id: id_view(itunes_id),
                },
            ),
            distinct(final(self)@),
    {
        self.insert(CacheTrack::new(name, spotify_id, itunes_id));
    }

    /// Offers the records in turn: each is added unless a record of the same
    /// identity is there already.
    pub fn insert_all(&mut self, records: Vec<CacheTrack>)
        ensures
            final(self)@ == inserted_all(old(self)@, records_view(records@)),
            distinct(final(self)@),
    {
        proof {
            use_type_invariant(&*self);
        }
        let ghost all = records_view(records@);
        let mut rest = records;
        let mut kept: Vec<CacheTrack> = Vec::new();
        // The records are taken from the back, so they are turned round first.
        while rest.len() > 0
            invariant
                kept@.len() + rest@.len() == all.len(),
                forall|k: int| 0 <= k < rest@.len() ==> rest@[k]@ == all[k],
                forall|k: int|
                    0 <= k < kept@.len() ==> (#[trigger] kept@[k])@ == all[all.len() - 1 - k],
            decreases rest.len(),
        {
            let last = rest.pop();
            match last {
                Some(track) => kept.push(track),
                None => {},
            }
        }
        while kept.len() > 0
            invariant
                kept@.len() <= all.len(),
                forall|k: int|
                    0 <= k < kept@.len() ==> (#[trigger] kept@[k])@ == all[all.len() - 1 - k],
                self@ == inserted_all(old(self)@, all.take(all.len() - kept@.len())),
                distinct(self@),
            decreases kept.len(),
        {
            let ghost done = all.len() - kept@.len();
            let next = kept.pop();
            match next {
                Some(track) => {
                    assert(all.take(done + 1).drop_last() == all.take(done));
                    self.insert(track);
                },
                None => {},
            }
        }
        assert(all.take(all.len() as int) == all);
    }

    /// The cache that results from offering the records in turn to the empty
    /// cache.
    pub fn from_records(records: Vec<CacheTrack>) -> (r: Cache)
        ensures
            r@ == inserted_all(Seq::empty(), records_view(records@)),
    {
        let mut cache = Cache::new();
        cache.insert_all(records);
        cache
    }

    /// The records, in the order in which they were accepted.
    pub fn tracks(&self) -> (r: &Vec<CacheTrack>)
        ensures
            records_view(r@) == self@,
            distinct(self@),
    {
        proof {
            use_type_invariant(self);
        }
        &self.tracks
    }
}

impl Default for Cache {
    fn default() -> (r: Cache)
        ensures
            r@ == Seq::<Record>::empty(),
    {
        Cache::new()
    }
}

/// An identifier that is held is still held after one more offer.
pub proof fn lemma_held_after_offer(records: Seq<Record>, r: Record, id: Key)
    requires
        holds(records, id),
    ensures
        holds(inserted(records, r), id),
{
    let i = choose|i: int| 0 <= i < records.len() && carries(#[trigger] records[i], id);
    assert(carries(inserted(records, r)[i], id));
}

/// An identifier that is held stays held, whatever is offered afterwards.
pub proof fn lemma_held_stays_held(records: Seq<Record>, later: Seq<Record>, id: Key)
    requires
        holds(records, id),
    ensures
        holds(inserted_all(records, later), id),
    decreases later.len(),
{
    if later.len() > 0 {
        lemma_held_stays_held(records, later.drop_last(), id);
        lemma_held_after_offer(inserted_all(records, later.drop_last()), later.last(), id);
    }
}

/// A record can be found by each identifier it carries right after it was
/// offered, and after any further offers, unless the offer was dropped because
/// of its other identifier: that is, provided the identifier was held before
/// or no record was the same identity.
pub proof fn lemma_lookup_after_insert(
    records: Seq<Record>,
    r: Record,
    id: Key,
    later: Seq<Record>,
)
    requires
        carries(r, id),
        holds(records, id) || !known(records, r),
    ensures
        holds(inserted(records, r), id),
        holds(inserted_all(inserted(records, r), later), id),
{
    let after = inserted(records, r);
    if known(records, r) {
        let i = choose|i: int| 0 <= i < records.len() && carries(#[trigger] records[i], id);
        assert(carries(after[i], id));
    } else {
        assert(carries(after[records.len() as int], id));
    }
    lemma_held_stays_held(after, later, id);
}

/// Offering a record that carries an identifier a second time changes nothing.
pub proof fn lemma_insert_twice(records: Seq<Record>, r: Record)
    requires
        r.spotify_id is Some || r.itunes_id is Some,
    ensures
        inserted(inserted(records, r), r) == inserted(records, r),
        inserted(inserted(records, r), r).len() == inserted(records, r).len(),
{
    let once = inserted(records, r);
    if !known(records, r) {
        assert(same_identity(once[records.len() as int], r));
    }
}

/// A record with a remote identifier only and a record with a local
/// identifier only are never the same identity, whatever the identifiers are.
pub proof fn lemma_namespaces_do_not_mix(a: Record, b: Record)
    requires
        a.itunes_id is None,
        b.spotify_id is None,
    ensures
        !same_identity(a, b),
        !same_identity(b, a),
{
}

/// Records of which no two are the same identity, and none the same identity
/// as a record that is there, are all added, in the order of the offers.
pub proof fn lemma_distinct_inserts_all_kept(records: Seq<Record>, rs: Seq<Record>)
    requires
        distinct(rs),
        forall|i: int, j: int|
            0 <= i < records.len() && 0 <= j < rs.len() ==> !same_identity(
                #[trigger] records[i],
                #[trigger] rs[j],
            ),
    ensures
        inserted_all(records, rs) == records + rs,
        inserted_all(records, rs).len() == records.len() + rs.len(),
    decreases rs.len(),
{
    if rs.len() > 0 {
        let front = rs.drop_last();
        assert forall|i: int, j: int| 0 <= i < j < front.len() implies !same_identity(
            #[trigger] front[i],
            #[trigger] front[j],
        ) by {
            assert(front[i] == rs[i] && front[j] == rs[j]);
        }
        assert forall|i: int, j: int|
            0 <= i < records.len() && 0 <= j < front.len() implies !same_identity(
            #[trigger] records[i],
            #[trigger] front[j],
        ) by {
            assert(front[j] == rs[j]);
        }
        lemma_distinct_inserts_all_kept(records, front);
        let before = records + front;
        assert forall|i: int| 0 <= i < before.len() implies !same_identity(
            #[trigger] before[i],
            rs.last(),
        ) by {
            if i < records.len() {
                assert(before[i] == records[i]);
            } else {
                assert(before[i] == rs[i - records.len()]);
            }
        }
        assert(before.push(rs.last()) == records + rs);
    } else {
        assert(records + rs == records);
    }
}

/// Whether `j` is among the places.
pub open spec fn placed(places: Seq<int>, j: int) -> bool {
    exists|i: int| 0 <= i < places.len() && #[trigger] places[i] == j
}

/// Whether `order` holds the records of `rs`, each place of `rs` once: the
/// record at place `i` of `order` is the one at place `places[i]` of `rs`.
pub open spec fn reordered(order: Seq<Record>, rs: Seq<Record>, places: Seq<int>) -> bool {
    &&& order.len() == rs.len()
    &&& places.len() == rs.len()
    &&& forall|i: int|
        0 <= i < places.len() ==> 0 <= #[trigger] places[i] < rs.len() && order[i] == rs[places[i]]
    &&& forall|i: int, j: int|
        0 <= i < j < places.len() ==> #[trigger] places[i] != #[trigger] places[j]
    &&& forall|j: int| 0 <= j < rs.len() ==> #[trigger] placed(places, j)
}

/// Records of which no two are the same identity, and none the same identity
/// as a record that is there, are all added in whatever order they are
/// offered: the cache grows by their number, none is lost, none is added
/// twice, and each can be found by every identifier that it carries. So it is
/// for callers that share the cache behind a lock, which lets them in one
/// after the other in some order.
pub proof fn lemma_distinct_inserts_in_any_order(
    records: Seq<Record>,
    rs: Seq<Record>,
    order: Seq<Record>,
    places: Seq<int>,
)
    requires
        distinct(rs),
        forall|i: int, j: int|
            0 <= i < records.len() && 0 <= j < rs.len() ==> !same_identity(
                #[trigger] records[i],
                #[trigger] rs[j],
            ),
        reordered(order, rs, places),
    ensures
        inserted_all(records, order) == records + order,
        inserted_all(records, order).len() == records.len() + rs.len(),
        forall|j: int, id: Key|
            0 <= j < rs.len() && #[trigger] carries(rs[j], id) ==> holds(
                inserted_all(records, order),
                id,
            ),
{
    assert forall|i: int, j: int| 0 <= i < j < order.len() implies !same_identity(
        #[trigger] order[i],
        #[trigger] order[j],
    ) by {
        let p = places[i];
        let q = places[j];
        assert(order[i] == rs[p] && order[j] == rs[q]);
        if p < q {
            assert(!same_identity(rs[p], rs[q]));
        } else {
            assert(!same_identity(rs[q], rs[p]));
        }
    }
    assert forall|i: int, j: int|
        0 <= i < records.len() && 0 <= j < order.len() implies !same_identity(
        #[trigger] records[i],
        #[trigger] order[j],
    ) by {
        assert(order[j] == rs[places[j]]);
    }
    lemma_distinct_inserts_all_kept(records, order);
    let after = inserted_all(records, order);
    assert forall|j: int, id: Key| 0 <= j < rs.len() && #[trigger] carries(rs[j], id) implies holds(
        after,
        id,
    ) by {
        assert(placed(places, j));
        let i = choose|i: int| 0 <= i < places.len() && #[trigger] places[i] == j;
        assert(after[records.len() + i] == order[i]);
        assert(carries(after[records.len() + i], id));
    }
}

/// The records of a cache, offered in their order to the empty cache, give
/// the same records again.
pub proof fn lemma_reload_restores(records: Seq<Record>)
    requires
        distinct(records),
    ensures
        inserted_all(Seq::empty(), records) == records,
{
    lemma_distinct_inserts_all_kept(Seq::empty(), records);
    assert(Seq::<Record>::empty() + records == records);
}

/// After any records were offered in turn to the empty cache, each of them
/// that carries an identifier can be found by one of the identifiers that it
/// carries.
pub proof fn lemma_reload_finds_every_record(records: Seq<Record>, i: int)
    requires
        0 <= i < records.len(),
        records[i].spotify_id is Some || records[i].itunes_id is Some,
    ensures
        ({
            let loaded = inserted_all(Seq::empty(), records);
            ||| (records[i].spotify_id is Some && holds(
                loaded,
                Key::SpotifyID(records[i].spotify_id->0),
            ))
            ||| (records[i].itunes_id is Some && holds(
                loaded,
                Key::ItunesID(records[i].itunes_id->0),
            ))
        }),
    decreases records.len(),
{
    let front = records.drop_last();
    let before = inserted_all(Seq::empty(), front);
    let loaded = inserted(before, records.last());
    if i < records.len() - 1 {
        lemma_reload_finds_every_record(front, i);
        assert(front[i] == records[i]);
        let r = records[i];
        if r.spotify_id is Some && holds(before, Key::SpotifyID(r.spotify_id->0)) {
            lemma_held_after_offer(before, records.last(), Key::SpotifyID(r.spotify_id->0));
        } else {
            lemma_held_after_offer(before, records.last(), Key::ItunesID(r.itunes_id->0));
        }
    } else {
        let r = records.last();
        if known(before, r) {
            let k = choose|k: int| 0 <= k < before.len() && same_identity(#[trigger] before[k], r);
            if before[k].spotify_id is Some && before[k].spotify_id == r.spotify_id {
                assert(carries(loaded[k], Key::SpotifyID(r.spotify_id->0)));
            } else {
                assert(carries(loaded[k], Key::ItunesID(r.itunes_id->0)));
            }
        } else {
            let k = before.len() as int;
            if r.spotify_id is Some {
                assert(carries(loaded[k], Key::SpotifyID(r.spotify_id->0)));
            } else {
                assert(carries(loaded[k], Key::ItunesID(r.itunes_id->0)));
            }
        }
    }
}

} // verus!
