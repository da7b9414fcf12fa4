//! Requests to a configured site: the request builder, the key that
//! identifies a query, and the decisions of `get_images`, which either
//! fetches a request as it is or counts the images of the query and fetches
//! randomly chosen ones.

use vstd::prelude::*;

use crate::api::paging::{
    count_bound, lemma_count_step, page_len, random_page, CountStep, PageCounter, RandomPage,
};
use crate::bytes::{
    add_len, byte_views, bytes_order, concat_all, concat_bytes, lemma_bytes_order_total,
    lemma_concat_all_len, lemma_map_keeps_same_elements, sort_byte_strings, total_len,
};
use crate::text::{clone_strings, hex_lower, hex_string, lemma_hex_lower_len, string_views};
use sha2::{Digest, Sha512};
use vstd::utf8::{encode_utf8, is_ascii_chars, is_ascii_chars_encode_utf8};

verus! {

broadcast use vstd::seq_lib::group_to_multiset_ensures;

/// The rating of the images a request asks for.
#[derive(Clone, Copy, Debug, PartialEq, Eq, Structural)]
pub enum RATING {
    S,
    E,
    Q,
    ALL,
}

/// A request for images of one site, built step by step.
#[derive(Clone, Debug)]
pub struct BooruRequest {
    pub domain: String,
    pub limit: u16,
    pub page: u64,
    pub is_random: bool,
    pub rating: RATING,
    pub tags: Vec<String>,
}

/// The name of a rating as the site configuration receives it.
pub open spec fn rating_name(r: RATING) -> Seq<char> {
    match r {
        RATING::S => "safe"@,
        RATING::E => "explicit"@,
        RATING::Q => "questionable"@,
        RATING::ALL => "all"@,
    }
}

/// The SHA-512 hash of a byte string.
pub uninterp spec fn sha512_digest(data: Seq<u8>) -> Seq<u8>;

/// Calls `sha2::Sha512::digest`, which hashes `data` with SHA-512. The
/// contract names the hash `sha512_digest` of the bytes and states its
/// length, 64 bytes, which the output type `GenericArray<u8, U64>` fixes;
/// the hash function itself is not written out.
#[verifier::external_body]
fn sha512(data: &[u8]) -> (r: Vec<u8>)
    ensures
        r@ == sha512_digest(data@),
        r@.len() == 64,
{
    Sha512::digest(data).to_vec()
}

/// The value of a request: its fields, strings taken as their characters.
pub struct RequestView {
    pub domain: Seq<char>,
    pub limit: u16,
    pub page: u64,
    pub is_random: bool,
    pub rating: RATING,
    pub tags: Seq<Seq<char>>,
}

impl View for BooruRequest {
    type V = RequestView;

    open spec fn view(&self) -> RequestView {
        RequestView {
            domain: self.domain@,
            limit: self.limit,
            page: self.page,
            is_random: self.is_random,
            rating: self.rating,
            tags: string_views(self.tags@),
        }
    }
}

impl RequestView {
    /// The request for page `page` with `max_limit` images per page, not random.
    pub open spec fn with_max_lim(self, page: u64, max_limit: u16) -> RequestView {
        RequestView { limit: max_limit, page, is_random: false, ..self }
    }

    /// The request for the single image at position `image`, not random.
    pub open spec fn with_min_lim(self, image: u64) -> RequestView {
        RequestView { limit: 1, page: image, is_random: false, ..self }
    }

    /// The texts that identify the query: the tags, the rating's name and
    /// the domain.
    pub open spec fn hash_keys(self) -> Seq<Seq<char>> {
        self.tags.push(rating_name(self.rating)).push(self.domain)
    }

    /// The bytes that are hashed: the UTF-8 encodings of the keys, sorted
    /// in byte order and laid end to end.
    pub open spec fn hash_input(self) -> Seq<u8> {
        concat_all(
            self.hash_keys().map_values(|k: Seq<char>| encode_utf8(k)).sort_by(bytes_order()),
        )
    }

    /// The key of the query: the lower-case hexadecimal SHA-512 hash of
    /// `hash_input`.
    pub open spec fn query_hash(self) -> Seq<char> {
        hex_lower(sha512_digest(self.hash_input()))
    }
}

impl BooruRequest {
    /// A request for `domain`: one image of page 1, rated safe, not
    /// random, with no tags.
    pub fn new(domain: String) -> (r: Self)
        ensures
            r@ == (RequestView {
                domain: domain@,
                limit: 1,
                page: 1,
                is_random: false,
                rating: RATING::S,
                tags: Seq::empty(),
            }),
    {
        let limit: u16 = 1;
        let page: u64 = 1;
        let is_random: bool = false;
        let rating: RATING = RATING::S;
        let tags: Vec<String> = Vec::new();
        let r = Self { domain, limit, page, is_random, rating, tags };
        proof {
            assert(r@.tags =~= Seq::<Seq<char>>::empty());
        }
        r
    }

    pub fn set_limit(self, limit: u16) -> (r: Self)
        ensures
            r@ == (RequestView { limit, ..self@ }),
    {
        let mut this = self;
        this.limit = limit;
        this
    }

    pub fn set_rating(self, rating: RATING) -> (r: Self)
        ensures
            r@ == (RequestView { rating, ..self@ }),
    {
        let mut this = self;
        this.rating = rating;
        this
    }

    pub fn randomize(self) -> (r: Self)
        ensures
            r@ == (RequestView { is_random: true, ..self@ }),
    {
        let mut this = self;
        this.is_random = true;
        this
    }

    /// Adds a tag after the others.
    pub fn set_tag(self, tag: String) -> (r: Self)
        ensures
            r@ == (RequestView { tags: self@.tags.push(tag@), ..self@ }),
    {
        let mut this = self;
        this.tags.push(tag);
        proof {
            assert(this@.tags =~= self@.tags.push(tag@));
        }
        this
    }

    /// The name of the rating: "safe", "explicit", "questionable" or "all".
    pub fn get_rating(&self) -> (s: String)
        ensures
            s@ == rating_name(self@.rating),
    {
        match self.rating {
            RATING::S => "safe".to_owned(),
            RATING::E => "explicit".to_owned(),
            RATING::Q => "questionable".to_owned(),
            RATING::ALL => "all".to_owned(),
        }
    }

    /// A copy of the request, equal to it.
    fn duplicate(&self) -> (r: Self)
        ensures
            r@ == self@,
    {
        let domain = self.domain.clone();
        let tags = clone_strings(&self.tags);
        BooruRequest {
            domain,
            limit: self.limit,
            page: self.page,
            is_random: self.is_random,
            rating: self.rating,
            tags,
        }
    }

    /// The request for page `page` with the site's largest page size
    /// `max_limit` (read from the site configuration), not random.
    pub fn get_max_lim(&self, page: u64, max_limit: u16) -> (r: Self)
        ensures
            r@ == self@.with_max_lim(page, max_limit),
            r.domain@ == self.domain@,
            r.rating == self.rating,
            r@.tags == self@.tags,
            r.limit == max_limit,
            r.page == page,
            !r.is_random,
    {
        let mut requester = self.duplicate();
        requester.limit = max_limit;
        requester.page = page;
        requester.is_random = false;
        requester
    }

    /// The request for the single image at position `image`, not random.
    pub fn get_min_lim(&self, image: u64) -> (r: Self)
        ensures
            r@ == self@.with_min_lim(image),
            r.domain@ == self.domain@,
            r.rating == self.rating,
            r@.tags == self@.tags,
            r.limit == 1,
            r.page == image,
            !r.is_random,
    {
        let mut requester = self.duplicate();
        requester.limit = 1;
        requester.page = image;
        requester.is_random = false;
        requester
    }

    /// The key of the query, under which its image count is cached.
    pub fn get_hash(&self) -> (s: String)
        ensures
            s@ == self@.query_hash(),
            s@.len() == 128,
    {
        let ghost encoded = self@.hash_keys().map_values(|k: Seq<char>| encode_utf8(k));
        let mut keys: Vec<Vec<u8>> = Vec::new();
        let n = self.tags.len();
        for i in 0..n
            invariant
                n == self.tags@.len(),
                encoded == self@.hash_keys().map_values(|k: Seq<char>| encode_utf8(k)),
                byte_views(keys@) == encoded.take(i as int),
        {
            let tag = self.tags[i].as_str();
            let tag_bytes = vstd::slice::slice_to_vec(tag.as_bytes());
            assert(tag_bytes@ == encode_utf8(tag@));
            let ghost before = keys@;
            keys.push(tag_bytes);
            proof {
                assert(byte_views(keys@) =~= byte_views(before).push(tag_bytes@));
                assert(self@.hash_keys()[i as int] == self.tags@[i as int]@);
                assert(encoded[i as int] == encode_utf8(tag@));
                assert(byte_views(keys@) =~= encoded.take((i + 1) as int));
            }
        }
        let rating = self.get_rating();
        let rating_text = rating.as_str();
        let rating_bytes = vstd::slice::slice_to_vec(rating_text.as_bytes());
        let domain_text = self.domain.as_str();
        let domain_bytes = vstd::slice::slice_to_vec(domain_text.as_bytes());
        let ghost tag_keys = keys@;
        keys.push(rating_bytes);
        keys.push(domain_bytes);
        proof {
            assert(encoded.take(n as int) =~= byte_views(tag_keys));
            assert(byte_views(keys@) =~= byte_views(tag_keys).push(rating_bytes@).push(
                domain_bytes@,
            ));
            assert(encoded[n as int] == encode_utf8(rating_text@));
            assert(encoded[n + 1] == encode_utf8(domain_text@));
            assert(encoded.len() == n + 2);
            assert(byte_views(keys@) =~= encoded);
        }
        let sorted = sort_byte_strings(keys);
        let joined = concat_bytes(&sorted);
        let digest = sha512(joined.as_slice());
        proof {
            lemma_hex_lower_len(digest@);
        }
        hex_string(digest.as_slice())
    }
}

/// The key of a request does not depend on the order of its tags: two
/// requests for the same domain and rating whose tags are the same texts,
/// each as many times, have the same key.
pub proof fn lemma_hash_ignores_tag_order(a: RequestView, b: RequestView)
    requires
        a.domain == b.domain,
        a.rating == b.rating,
        a.tags.to_multiset() == b.tags.to_multiset(),
    ensures
        a.query_hash() == b.query_hash(),
{
    let f = |k: Seq<char>| encode_utf8(k);
    let ka = a.hash_keys();
    let kb = b.hash_keys();
    assert(ka.to_multiset() == kb.to_multiset());
    lemma_map_keeps_same_elements(ka, kb, f);
    let ea = ka.map_values(f);
    let eb = kb.map_values(f);
    lemma_bytes_order_total();
    ea.lemma_sort_by_ensures(bytes_order());
    eb.lemma_sort_by_ensures(bytes_order());
    vstd::seq_lib::lemma_sorted_unique(
        ea.sort_by(bytes_order()),
        eb.sort_by(bytes_order()),
        bytes_order(),
    );
}

/// The requests made from a request to count its images (a page of the
/// site's largest size) and to fetch one image (a page of one image) ask
/// the same query: the same domain, rating and tags, so the same key. Only
/// the page, the page size and randomness change.
pub proof fn lemma_derived_requests_keep_query(
    v: RequestView,
    page: u64,
    max_limit: u16,
    image: u64,
)
    ensures
        v.with_max_lim(page, max_limit).domain == v.domain,
        v.with_max_lim(page, max_limit).rating == v.rating,
        v.with_max_lim(page, max_limit).tags == v.tags,
        v.with_max_lim(page, max_limit).limit == max_limit,
        v.with_max_lim(page, max_limit).page == page,
        !v.with_max_lim(page, max_limit).is_random,
        v.with_max_lim(page, max_limit).query_hash() == v.query_hash(),
        v.with_min_lim(image).domain == v.domain,
        v.with_min_lim(image).rating == v.rating,
        v.with_min_lim(image).tags == v.tags,
        v.with_min_lim(image).limit == 1,
        v.with_min_lim(image).page == image,
        !v.with_min_lim(image).is_random,
        v.with_min_lim(image).query_hash() == v.query_hash(),
{
}

/// The UTF-8 bytes of each rating's name: as many as its letters, a
/// different number for each rating.
proof fn lemma_rating_name_len(r: RATING)
    ensures
        encode_utf8(rating_name(r)).len() == match r {
            RATING::S => 4int,
            RATING::E => 8int,
            RATING::Q => 12int,
            RATING::ALL => 3int,
        },
{
    reveal_strlit("safe");
    reveal_strlit("explicit");
    reveal_strlit("questionable");
    reveal_strlit("all");
    assert(is_ascii_chars(rating_name(r)));
    is_ascii_chars_encode_utf8(rating_name(r));
}

/// The number of bytes hashed for a request: those of its tags, of its
/// rating's name and of its domain.
proof fn lemma_hash_input_len(v: RequestView)
    ensures
        v.hash_input().len() == total_len(v.tags.map_values(|k: Seq<char>| encode_utf8(k)))
            + encode_utf8(rating_name(v.rating)).len() + encode_utf8(v.domain).len(),
{
    let f = |k: Seq<char>| encode_utf8(k);
    let e = v.hash_keys().map_values(f);
    let t = v.tags.map_values(f);
    lemma_bytes_order_total();
    e.lemma_sort_by_ensures(bytes_order());
    lemma_concat_all_len(e.sort_by(bytes_order()), e);
    assert(e.drop_last() =~= t.push(encode_utf8(rating_name(v.rating))));
    assert(e.drop_last().drop_last() =~= t);
    assert(e.last() == encode_utf8(v.domain));
    assert(e.drop_last().last() == encode_utf8(rating_name(v.rating)));
    assert(total_len(e) == add_len()(total_len(e.drop_last()), e.last()));
    assert(total_len(e.drop_last()) == add_len()(
        total_len(e.drop_last().drop_last()),
        e.drop_last().last(),
    ));
}

/// The key of a query covers its rating: two requests for the same tags
/// and domain but different ratings hash different bytes, so their image
/// counts are cached apart.
pub proof fn lemma_hash_tells_ratings_apart(a: RequestView, b: RequestView)
    requires
        a.domain == b.domain,
        a.tags == b.tags,
        a.rating != b.rating,
    ensures
        a.hash_input() != b.hash_input(),
{
    lemma_hash_input_len(a);
    lemma_hash_input_len(b);
    lemma_rating_name_len(a.rating);
    lemma_rating_name_len(b.rating);
}

/// A session fetches its request as it is exactly when the site does not
/// sample here or the request is not random, whatever its limit; otherwise
/// it first looks up the cached count under the query's key.
pub proof fn lemma_session_start_kind(
    s: ImageSession,
    request: RequestView,
    settings: SiteSettings,
    now: u64,
)
    requires
        s.starts(request, settings, now),
    ensures
        s.stage is Direct <==> (!settings.use_self_randomize || !request.is_random),
        s.stage is Direct ==> (s.action matches ImageAction::Fetch { request: r, keep, pause }
            && r@ == request && keep && !pause),
        !(s.stage is Direct) ==> s.stage is Lookup,
        !(s.stage is Direct) ==> (s.action matches ImageAction::ReadCache(k) && k@
            == request.query_hash()),
{
}

/// How old, in seconds, a cached image count may be and still be used.
pub const CACHE_FRESHNESS_SECS: u64 = 10800;

/// What the site configuration says of random requests: whether the site's
/// random requests are made here by sampling, and the most images a page
/// holds.
#[derive(Clone, Copy, Debug, PartialEq, Eq)]
pub struct SiteSettings {
    pub use_self_randomize: bool,
    pub max_limit: u16,
}

/// What the caller of an `ImageSession` does next.
#[derive(Debug)]
pub enum ImageAction {
    /// Look up the image count cached under this key, and report it with
    /// `ImageEvent::CacheEntry`.
    ReadCache(String),
    /// Send this request and report how many images came back with
    /// `ImageEvent::Fetched`. When `keep` holds, the images are part of the
    /// answer; when `pause` holds, wait the site's timeout afterwards.
    Fetch { request: BooruRequest, keep: bool, pause: bool },
    /// Cache the entry `[timestamp, image count]` under this key, and
    /// report `ImageEvent::Stored`.
    StoreCount(String, [u64; 2]),
    /// Stop: the images kept so far, in order, are the answer.
    Finish,
}

/// What the caller of an `ImageSession` reports back.
#[derive(Clone, Copy, Debug, PartialEq, Eq)]
pub enum ImageEvent {
    CacheEntry(Option<[u64; 2]>),
    Fetched(u64),
    Stored,
}

/// Where an `ImageSession` stands.
#[derive(Clone, Copy, Debug, PartialEq, Eq, Structural)]
pub enum ImageStage {
    /// Fetching the request as it is.
    Direct,
    /// Waiting for the cached image count.
    Lookup,
    /// Counting the images of the query.
    Counting(PageCounter),
    /// Waiting for the count to be cached.
    Storing,
    /// Fetching random images; this many more are to follow.
    Sampling(u64),
    /// Done.
    Finished,
}

/// The decisions of `get_images` for one request, one step per reply of
/// the outside world.
#[derive(Debug)]
pub struct ImageSession {
    pub request: BooruRequest,
    pub max_limit: u16,
    pub now: u64,
    pub key: String,
    pub total: u64,
    /// The positions drawn at random so far, in order.
    pub draws: Vec<RandomPage>,
    pub stage: ImageStage,
    pub action: ImageAction,
}

/// Whether a cache entry `[timestamp, count]` is recent enough at `now`.
pub open spec fn fresh_entry(now: u64, entry: [u64; 2]) -> bool {
    entry[0] >= now - CACHE_FRESHNESS_SECS
}

impl ImageSession {
    /// The parts that stay the same for the whole session.
    pub open spec fn same_query(self, other: ImageSession) -> bool {
        &&& self.request@ == other.request@
        &&& self.max_limit == other.max_limit
        &&& self.now == other.now
        &&& self.key@ == other.key@
    }

    /// The session as it starts for `request` under `settings` at `now`.
    pub open spec fn starts(self, request: RequestView, settings: SiteSettings, now: u64) -> bool {
        &&& self.request@ == request
        &&& self.max_limit == settings.max_limit
        &&& self.now == now
        &&& self.total == 0
        &&& self.draws@.len() == 0
        &&& if !settings.use_self_randomize || !request.is_random {
            &&& self.stage == ImageStage::Direct
            &&& self.key@ == Seq::<char>::empty()
            &&& self.action matches ImageAction::Fetch { request: r, keep, pause }
            &&& r@ == request && keep && !pause
        } else {
            &&& self.stage == ImageStage::Lookup
            &&& self.key@ == request.query_hash()
            &&& self.action matches ImageAction::ReadCache(k)
            &&& k@ == self.key@
        }
    }

    /// The session fetches page `c.page` of the count `c`.
    pub open spec fn probing(self, c: PageCounter) -> bool {
        &&& self.stage == ImageStage::Counting(c)
        &&& self.action matches ImageAction::Fetch { request, keep, pause }
        &&& !keep && pause
        &&& request@ == self.request@.with_max_lim(c.page, self.max_limit)
    }

    /// The session has `total` images to choose from and `remaining` more
    /// to fetch, after the draws `before`: it stops when either is zero,
    /// and otherwise draws one more position at random from `1..=total`
    /// and fetches the image at that position.
    pub open spec fn sampling(self, total: u64, remaining: u64, before: Seq<RandomPage>) -> bool {
        &&& self.total == total
        &&& if total == 0 || remaining == 0 {
            &&& self.stage == ImageStage::Finished
            &&& self.action is Finish
            &&& self.draws@ == before
        } else {
            let image = self.draws@.last().drawn();
            &&& self.draws@.len() == before.len() + 1
            &&& self.draws@.drop_last() == before
            &&& self.draws@.last().range_end() == total
            &&& 1 <= image <= total
            &&& self.stage == ImageStage::Sampling((remaining - 1) as u64)
            &&& self.action matches ImageAction::Fetch { request, keep, pause }
            &&& keep && pause
            &&& request@ == self.request@.with_min_lim(image)
        }
    }

    /// The events the session takes in its present stage; the others would
    /// make the count's or the freshness test's arithmetic overflow.
    pub open spec fn accepts(self, ev: ImageEvent) -> bool {
        match self.stage {
            ImageStage::Direct => ev is Fetched,
            ImageStage::Lookup => match ev {
                ImageEvent::CacheEntry(e) => e is Some ==> self.now >= CACHE_FRESHNESS_SECS,
                _ => false,
            },
            ImageStage::Counting(c) => match ev {
                ImageEvent::Fetched(len) => c.step_defined(len),
                _ => false,
            },
            ImageStage::Storing => ev is Stored,
            ImageStage::Sampling(_) => ev is Fetched,
            ImageStage::Finished => false,
        }
    }

    /// `next` is the session after this one takes in `ev`.
    pub open spec fn steps_to(self, ev: ImageEvent, next: ImageSession) -> bool {
        &&& next.same_query(self)
        &&& match self.stage {
            ImageStage::Direct => {
                next.total == self.total && next.stage == ImageStage::Finished
                    && next.action is Finish && next.draws@ == self.draws@
            },
            ImageStage::Lookup => {
                let entry = ev->CacheEntry_0;
                if entry is Some && fresh_entry(self.now, entry->Some_0) {
                    next.sampling(entry->Some_0[1], self.request.limit as u64, self.draws@)
                } else {
                    next.total == self.total && next.draws@ == self.draws@ && next.probing(
                        PageCounter::start(self.max_limit as u64, true),
                    )
                }
            },
            ImageStage::Counting(c) => {
                let c2 = c.next(ev->Fetched_0);
                if c2.phase is Done {
                    &&& next.total == c2.total
                    &&& next.stage == ImageStage::Storing
                    &&& next.action matches ImageAction::StoreCount(k, e)
                    &&& k@ == self.key@ && e[0] == self.now && e[1] == c2.total
                    &&& next.draws@ == self.draws@
                } else {
                    next.total == self.total && next.draws@ == self.draws@ && next.probing(c2)
                }
            },
            ImageStage::Storing => next.sampling(
                self.total,
                self.request.limit as u64,
                self.draws@,
            ),
            ImageStage::Sampling(remaining) => next.sampling(self.total, remaining, self.draws@),
            ImageStage::Finished => true,
        }
    }

    /// Starts the session for `request` at the time `now`, given what the
    /// site configuration says of random requests.
    pub fn start_at(request: BooruRequest, settings: SiteSettings, now: u64) -> (s: ImageSession)
        ensures
            s.starts(request@, settings, now),
            s.stage is Direct <==> (!settings.use_self_randomize || !request.is_random),
            !(s.stage is Direct) ==> s.stage is Lookup,
    {
        if !settings.use_self_randomize || !request.is_random {
            let fetch = request.duplicate();
            ImageSession {
                request,
                max_limit: settings.max_limit,
                now,
                key: String::new(),
                total: 0,
                draws: Vec::new(),
                stage: ImageStage::Direct,
                action: ImageAction::Fetch { request: fetch, keep: true, pause: false },
            }
        } else {
            let key = request.get_hash();
            let lookup = key.clone();
            ImageSession {
                request,
                max_limit: settings.max_limit,
                now,
                key,
                total: 0,
                draws: Vec::new(),
                stage: ImageStage::Lookup,
                action: ImageAction::ReadCache(lookup),
            }
        }
    }

    /// What to do next.
    pub fn action(&self) -> (a: &ImageAction)
        ensures
            *a == self.action,
    {
        &self.action
    }

    /// Whether the session takes in `ev`, as `accepts` says.
    pub fn can_accept(&self, ev: &ImageEvent) -> (b: bool)
        ensures
            b == self.accepts(*ev),
    {
        match self.stage {
            ImageStage::Direct => matches!(ev, ImageEvent::Fetched(_)),
            ImageStage::Lookup => match ev {
                ImageEvent::CacheEntry(e) => e.is_none() || self.now >= CACHE_FRESHNESS_SECS,
                _ => false,
            },
            ImageStage::Counting(c) => match ev {
                ImageEvent::Fetched(len) => c.can_step(*len),
                _ => false,
            },
            ImageStage::Storing => matches!(ev, ImageEvent::Stored),
            ImageStage::Sampling(_) => matches!(ev, ImageEvent::Fetched(_)),
            ImageStage::Finished => false,
        }
    }

    fn begin_count(&mut self)
        ensures
            final(self).same_query(*old(self)),
            final(self).draws@ == old(self).draws@,
            final(self).total == old(self).total,
            final(self).probing(PageCounter::start(old(self).max_limit as u64, true)),
    {
        let counter = PageCounter::new(self.max_limit as u64, true);
        let probe = self.request.get_max_lim(counter.page(), self.max_limit);
        self.stage = ImageStage::Counting(counter);
        self.action = ImageAction::Fetch { request: probe, keep: false, pause: true };
    }

    fn sample(&mut self, total: u64, remaining: u64)
        ensures
            final(self).same_query(*old(self)),
            final(self).sampling(total, remaining, old(self).draws@),
    {
        self.total = total;
        if total == 0 || remaining == 0 {
            self.stage = ImageStage::Finished;
            self.action = ImageAction::Finish;
        } else {
            let draw = random_page(total);
            let pick = self.request.get_min_lim(draw.page());
            self.stage = ImageStage::Sampling(remaining - 1);
            self.action = ImageAction::Fetch { request: pick, keep: true, pause: true };
            let ghost before = self.draws@;
            self.draws.push(draw);
            assert(self.draws@.drop_last() =~= before);
        }
    }

    /// Takes in the outcome of the last action and decides the next one.
    pub fn step(&mut self, ev: ImageEvent)
        requires
            old(self).accepts(ev),
        ensures
            old(self).steps_to(ev, *final(self)),
    {
        match self.stage {
            ImageStage::Direct => {
                self.stage = ImageStage::Finished;
                self.action = ImageAction::Finish;
            },
            ImageStage::Lookup => {
                let entry = match ev {
                    ImageEvent::CacheEntry(e) => e,
                    _ => None,
                };
                match entry {
                    Some(e) => {
                        if e[0] >= self.now - CACHE_FRESHNESS_SECS {
                            let limit = self.request.limit as u64;
                            self.sample(e[1], limit);
                        } else {
                            self.begin_count();
                        }
                    },
                    None => self.begin_count(),
                }
            },
            ImageStage::Counting(c) => {
                let len = match ev {
                    ImageEvent::Fetched(len) => len,
                    _ => 0,
                };
                let mut counter = c;
                match counter.step(len) {
                    CountStep::Fetch(page) => {
                        let probe = self.request.get_max_lim(page, self.max_limit);
                        self.stage = ImageStage::Counting(counter);
                        self.action = ImageAction::Fetch { request: probe, keep: false, pause: true };
                    },
                    CountStep::Finished(total) => {
                        let key = self.key.clone();
                        self.total = total;
                        self.stage = ImageStage::Storing;
                        self.action = ImageAction::StoreCount(key, [self.now, total]);
                    },
                }
            },
            ImageStage::Storing => {
                let total = self.total;
                let limit = self.request.limit as u64;
                self.sample(total, limit);
            },
            ImageStage::Sampling(remaining) => {
                let total = self.total;
                self.sample(total, remaining);
            },
            ImageStage::Finished => {},
        }
    }
}

/// Each random pick fetches the image at a position the generator drew
/// for it: taking in a fetched page while more picks remain among at least
/// one image, a session keeps its earlier draws, draws one new position
/// from `1..=total`, and fetches the single image at exactly that position
/// of the same query.
pub proof fn lemma_session_pick_uses_new_draw(s: ImageSession, ev: ImageEvent, next: ImageSession)
    requires
        s.stage is Sampling,
        s.stage->Sampling_0 > 0,
        s.total > 0,
        s.steps_to(ev, next),
    ensures
        next.draws@.len() == s.draws@.len() + 1,
        next.draws@.subrange(0, s.draws@.len() as int) == s.draws@,
        next.draws@.last().range_end() == s.total,
        1 <= next.draws@.last().drawn() <= s.total,
        next.action matches ImageAction::Fetch { request, keep, pause } && keep && pause
            && request.page == next.draws@.last().drawn() && request.limit == 1
            && !request.is_random && request.rating == s.request.rating
            && request@.tags == s.request@.tags && request@.domain == s.request@.domain,
{
    assert(next.draws@.drop_last() =~= next.draws@.subrange(0, s.draws@.len() as int));
}

/// The count made by a session is exact: while a session counts against a
/// board that answers every page as a query with `n` images would, each
/// answer is accepted and either keeps the count on track, closer to its
/// end, or ends it by caching `[now, n]` under the query's key.
pub proof fn lemma_session_count_is_exact(s: ImageSession, next: ImageSession, n: nat)
    requires
        s.stage is Counting,
        s.stage->Counting_0.tracks(n),
        !(s.stage->Counting_0.phase is Done),
        s.steps_to(
            ImageEvent::Fetched(
                page_len(
                    n,
                    s.stage->Counting_0.page_size as nat,
                    s.stage->Counting_0.page as int,
                ) as u64,
            ),
            next,
        ),
    ensures
        s.accepts(
            ImageEvent::Fetched(
                page_len(
                    n,
                    s.stage->Counting_0.page_size as nat,
                    s.stage->Counting_0.page as int,
                ) as u64,
            ),
        ),
        next.stage is Storing ==> {
            &&& next.total == n
            &&& next.action matches ImageAction::StoreCount(k, e)
            &&& k@ == s.key@ && e[0] == s.now && e[1] == n
        },
        next.stage is Counting ==> {
            &&& next.stage->Counting_0.tracks(n)
            &&& next.stage->Counting_0.probes_left(n) < s.stage->Counting_0.probes_left(n)
        },
{
    lemma_count_step(s.stage->Counting_0, n);
}

/// A session whose cache holds no recent count starts counting on track:
/// for a site with pages of at least one image and a query with at most
/// `count_bound()` full pages of images, the count it begins keeps the
/// invariant.
pub proof fn lemma_session_count_starts(s: ImageSession, ev: ImageEvent, next: ImageSession, n: nat)
    requires
        s.stage is Lookup,
        s.max_limit >= 1,
        n <= u64::MAX,
        n / (s.max_limit as nat) <= count_bound(),
        ev is CacheEntry,
        !(ev->CacheEntry_0 is Some && fresh_entry(s.now, ev->CacheEntry_0->Some_0)),
        s.steps_to(ev, next),
    ensures
        next.stage is Counting,
        next.stage->Counting_0.tracks(n),
        next.stage->Counting_0.page == 1,
{
}

} // verus!
