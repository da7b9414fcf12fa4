//! Requests to yande.re: the request builder, the URLs it makes, and the
//! decisions of `REQUEST::get_images`, which either fetches one URL or
//! counts the images of a query and fetches randomly chosen ones, filling
//! the page into URL templates.

use vstd::prelude::*;

use crate::api::paging::{
    lemma_count_step, page_len, random_page, CountStep, PageCounter, RandomPage,
};
use crate::text::{clone_strings, decimal, join, join_strings, push_decimal, string_views};
use std::collections::HashMap;
use strfmt::{strfmt, FmtError};

verus! {

/// An error of `strfmt`: a malformed template, or an unknown key in it.
#[verifier::external_type_specification]
#[verifier::external_body]
pub struct ExFmtError(FmtError);

/// The rating of the images a request asks for.
#[derive(Clone, Copy, Debug, PartialEq, Eq, Structural)]
pub enum RATING {
    S,
    E,
    Q,
    ALL,
}

/// A built request: one URL, or two URL templates with a `{image}` place
/// for the page (one page of one image, and one page of a thousand) and
/// the number of random images to fetch.
#[derive(Debug)]
pub enum REQUEST {
    Request(String),
    RandomTemplate([String; 2], u16),
}

/// A request for images of yande.re, built step by step.
#[derive(Debug)]
pub struct BooruRequest {
    limit: u16,
    page: u64,
    is_random: bool,
    rating: RATING,
    tags: Vec<String>,
}

/// The value of a request: its fields, tags taken as their characters.
pub struct YandereView {
    pub limit: u16,
    pub page: u64,
    pub is_random: bool,
    pub rating: RATING,
    pub tags: Seq<Seq<char>>,
}

impl View for BooruRequest {
    type V = YandereView;

    closed spec fn view(&self) -> YandereView {
        YandereView {
            limit: self.limit,
            page: self.page,
            is_random: self.is_random,
            rating: self.rating,
            tags: string_views(self.tags@),
        }
    }
}

/// The start of every URL.
pub open spec fn base_url() -> Seq<char> {
    "https://yande.re/post.json?"@
}

/// The tags, followed by the rating's tag unless the rating is `ALL`.
pub open spec fn rated_tags(tags: Seq<Seq<char>>, rating: RATING) -> Seq<Seq<char>> {
    match rating {
        RATING::S => tags.push("rating:s"@),
        RATING::E => tags.push("rating:e"@),
        RATING::Q => tags.push("rating:q"@),
        RATING::ALL => tags,
    }
}

/// The `tags=` argument: the rated tags joined by `+`.
pub open spec fn tags_arg(v: YandereView) -> Seq<char> {
    "tags="@ + join(rated_tags(v.tags, v.rating), "+"@)
}

/// The URL of a request that is not random.
pub open spec fn request_url(v: YandereView) -> Seq<char> {
    base_url() + join(
        seq!["limit="@ + decimal(v.limit as nat), "page="@ + decimal(v.page as nat), tags_arg(v)],
        "&"@,
    )
}

/// The URL template of a random request for pages of `limit_arg` images.
pub open spec fn template_url(v: YandereView, limit_arg: Seq<char>) -> Seq<char> {
    base_url() + join(seq![limit_arg, "page={image}"@, tags_arg(v)], "&"@)
}

/// `r` is what `build` makes of the request `v`.
pub open spec fn built(v: YandereView, r: REQUEST) -> bool {
    match r {
        REQUEST::Request(url) => !v.is_random && url@ == request_url(v),
        REQUEST::RandomTemplate(templates, limit) => {
            &&& v.is_random
            &&& templates[0]@ == template_url(v, "limit=1"@)
            &&& templates[1]@ == template_url(v, "limit=1000"@)
            &&& limit == v.limit
        },
    }
}

impl BooruRequest {
    /// A request for one image of page 1, rated safe, not random, with no
    /// tags.
    pub fn new() -> (r: Self)
        ensures
            r@ == (YandereView {
                limit: 1,
                page: 1,
                is_random: false,
                rating: RATING::S,
                tags: Seq::empty(),
            }),
    {
        let limit: u16 = 1;
        let page: u64 = 1;
        let is_random: bool = false;
        let rating: RATING = RATING::S;
        let tags: Vec<String> = Vec::new();
        let r = Self { limit, page, is_random, rating, tags };
        proof {
            assert(r@.tags =~= Seq::<Seq<char>>::empty());
        }
        r
    }

    pub fn set_limit(self, limit: u16) -> (r: Self)
        ensures
            r@ == (YandereView { limit, ..self@ }),
    {
        let mut this = self;
        this.limit = limit;
        this
    }

    pub fn set_rating(self, rating: RATING) -> (r: Self)
        ensures
            r@ == (YandereView { rating, ..self@ }),
    {
        let mut this = self;
        this.rating = rating;
        this
    }

    pub fn randomize(self) -> (r: Self)
        ensures
            r@ == (YandereView { is_random: true, ..self@ }),
    {
        let mut this = self;
        this.is_random = true;
        this
    }

    /// Adds a tag after the others.
    pub fn set_tag(self, tag: String) -> (r: Self)
        ensures
            r@ == (YandereView { tags: self@.tags.push(tag@), ..self@ }),
    {
        let mut this = self;
        this.tags.push(tag);
        proof {
            assert(this@.tags =~= self@.tags.push(tag@));
        }
        this
    }

    /// The `tags=` argument of the request's URLs.
    fn tags_argument(&self) -> (s: String)
        ensures
            s@ == tags_arg(self@),
    {
        let mut truetags = clone_strings(&self.tags);
        match self.rating {
            RATING::S => {
                truetags.push("rating:s".to_owned());
            },
            RATING::E => {
                truetags.push("rating:e".to_owned());
            },
            RATING::Q => {
                truetags.push("rating:q".to_owned());
            },
            RATING::ALL => {},
        }
        proof {
            assert(string_views(truetags@) =~= rated_tags(self@.tags, self@.rating));
        }
        let mut s = "tags=".to_owned();
        let joined = join_strings(&truetags, "+");
        s.append(joined.as_str());
        s
    }

    /// The URL of the request, or its two URL templates and the number of
    /// random images when it is random.
    pub fn build(&self) -> (r: REQUEST)
        ensures
            built(self@, r),
    {
        if !self.is_random {
            let mut limit = "limit=".to_owned();
            push_decimal(&mut limit, self.limit as u64);
            let mut page = "page=".to_owned();
            push_decimal(&mut page, self.page);
            let tags = self.tags_argument();
            let args: Vec<String> = vec![limit, page, tags];
            let mut url = "https://yande.re/post.json?".to_owned();
            let joined = join_strings(&args, "&");
            url.append(joined.as_str());
            proof {
                assert(string_views(args@) =~= seq![
                    "limit="@ + decimal(self@.limit as nat),
                    "page="@ + decimal(self@.page as nat),
                    tags_arg(self@),
                ]);
            }
            REQUEST::Request(url)
        } else {
            let tags = self.tags_argument();
            let tags_again = tags.clone();
            let args_templ: Vec<String> = vec![
                "limit=1".to_owned(),
                "page={image}".to_owned(),
                tags,
            ];
            let args_clar: Vec<String> = vec![
                "limit=1000".to_owned(),
                "page={image}".to_owned(),
                tags_again,
            ];
            let mut template = "https://yande.re/post.json?".to_owned();
            let joined_templ = join_strings(&args_templ, "&");
            template.append(joined_templ.as_str());
            let mut clarification = "https://yande.re/post.json?".to_owned();
            let joined_clar = join_strings(&args_clar, "&");
            clarification.append(joined_clar.as_str());
            proof {
                assert(string_views(args_templ@) =~= seq![
                    "limit=1"@,
                    "page={image}"@,
                    tags_arg(self@),
                ]);
                assert(string_views(args_clar@) =~= seq![
                    "limit=1000"@,
                    "page={image}"@,
                    tags_arg(self@),
                ]);
            }
            REQUEST::RandomTemplate([template, clarification], self.limit)
        }
    }
}

/// The rating's tag in a yande.re query.
pub open spec fn rating_tag(rating: RATING) -> Seq<char> {
    match rating {
        RATING::S => "rating:s"@,
        RATING::E => "rating:e"@,
        RATING::Q => "rating:q"@,
        RATING::ALL => seq![],
    }
}

/// The `tags=` argument depends on the tags and the rating alone: a random
/// request and the same request not random, or with another limit or page,
/// ask for the same tags.
pub proof fn lemma_tags_arg_of_query(v: YandereView, w: YandereView)
    requires
        v.tags == w.tags,
        v.rating == w.rating,
    ensures
        tags_arg(v) == tags_arg(w),
{
}

/// The `tags=` argument lists the tags joined by `+`, then, for a rating
/// other than `ALL`, the rating's tag (`rating:s`, `rating:e` or
/// `rating:q`), so every URL of a rated request ends with its rating.
pub proof fn lemma_tags_arg_ends_with_rating(v: YandereView)
    ensures
        v.rating == RATING::ALL ==> tags_arg(v) == "tags="@ + join(v.tags, "+"@),
        v.rating != RATING::ALL && v.tags.len() == 0 ==> tags_arg(v) == "tags="@ + rating_tag(
            v.rating,
        ),
        v.rating != RATING::ALL && v.tags.len() > 0 ==> tags_arg(v) == "tags="@ + join(
            v.tags,
            "+"@,
        ) + "+"@ + rating_tag(v.rating),
{
    if v.rating != RATING::ALL {
        let t = v.tags.push(rating_tag(v.rating));
        assert(rated_tags(v.tags, v.rating) == t);
        assert(t.drop_last() =~= v.tags);
        if v.tags.len() == 0 {
            assert(t.len() == 1 && t[0] == rating_tag(v.rating));
        }
    }
}

/// The URL of a request and the two templates of its random version end
/// with the same `tags=` argument: drawing images at random asks for the
/// same tags and rating as fetching a page.
pub proof fn lemma_urls_share_tags(v: YandereView, w: YandereView, url: String, templates: [String; 2], limit: u16)
    requires
        built(v, REQUEST::Request(url)),
        built(w, REQUEST::RandomTemplate(templates, limit)),
        v.tags == w.tags,
        v.rating == w.rating,
    ensures
        url@.len() >= tags_arg(v).len(),
        url@.subrange(url@.len() - tags_arg(v).len(), url@.len() as int) == tags_arg(v),
        templates[0]@.len() >= tags_arg(v).len(),
        templates[0]@.subrange(templates[0]@.len() - tags_arg(v).len(), templates[0]@.len() as int)
            == tags_arg(v),
        templates[1]@.len() >= tags_arg(v).len(),
        templates[1]@.subrange(templates[1]@.len() - tags_arg(v).len(), templates[1]@.len() as int)
            == tags_arg(v),
{
    let a = tags_arg(v);
    assert(tags_arg(w) == a);
    let p = seq!["limit="@ + decimal(v.limit as nat), "page="@ + decimal(v.page as nat), a];
    assert(p.drop_last() =~= seq!["limit="@ + decimal(v.limit as nat), "page="@ + decimal(v.page as nat)]);
    let pre = base_url() + join(p.drop_last(), "&"@) + "&"@;
    assert(url@ =~= pre + a);
    assert((pre + a).subrange(pre.len() as int, (pre + a).len() as int) =~= a);
    let q0 = seq!["limit=1"@, "page={image}"@, a];
    assert(q0.drop_last() =~= seq!["limit=1"@, "page={image}"@]);
    let pre0 = base_url() + join(q0.drop_last(), "&"@) + "&"@;
    assert(templates[0]@ =~= pre0 + a);
    assert((pre0 + a).subrange(pre0.len() as int, (pre0 + a).len() as int) =~= a);
    let q1 = seq!["limit=1000"@, "page={image}"@, a];
    assert(q1.drop_last() =~= seq!["limit=1000"@, "page={image}"@]);
    let pre1 = base_url() + join(q1.drop_last(), "&"@) + "&"@;
    assert(templates[1]@ =~= pre1 + a);
    assert((pre1 + a).subrange(pre1.len() as int, (pre1 + a).len() as int) =~= a);
}

/// The text `strfmt` makes of `template` with the one variable `key` set
/// to the decimal numeral of `value`, or `None` where it fails.
pub uninterp spec fn strfmt_number(template: Seq<char>, key: Seq<char>, value: u64) -> Option<
    Seq<char>,
>;

/// The name of the variable that the URL templates hold for the page.
pub open spec fn page_variable() -> Seq<char> {
    "image"@
}

/// What `strfmt` makes of `template` with the page variable set to `page`.
pub open spec fn strfmt_image(template: Seq<char>, page: u64) -> Option<Seq<char>> {
    strfmt_number(template, page_variable(), page)
}

/// Calls `strfmt::strfmt` on `template` with one variable, `key`, set to
/// the decimal numeral of `value`. The contract names what comes back
/// (`strfmt_number` of the template, the key and the number): the text
/// when it succeeds, `None` when it fails. How `strfmt` fills a template
/// is not written out.
#[verifier::external_body]
fn format_number(template: &str, key: &str, value: u64) -> (r: Result<String, FmtError>)
    ensures
        match r {
            Ok(s) => strfmt_number(template@, key@, value) == Some(s@),
            Err(_) => strfmt_number(template@, key@, value) is None,
        },
{
    let mut vars: HashMap<String, String> = HashMap::new();
    vars.insert(key.to_string(), value.to_string());
    strfmt(template, &vars)
}

/// Fills the page variable of `template` with `page`.
fn format_page(template: &str, page: u64) -> (r: Result<String, FmtError>)
    ensures
        match r {
            Ok(s) => strfmt_image(template@, page) == Some(s@),
            Err(_) => strfmt_image(template@, page) is None,
        },
{
    format_number(template, "image", page)
}

/// The page size of the count that a random request makes.
pub const COUNT_PAGE_SIZE: u64 = 1000;

/// What the caller of a `TemplateSession` does next.
#[derive(Debug)]
pub enum TemplateAction {
    /// Fetch this URL and report how many images came back with
    /// `TemplateSession::step`. A probe of the count (`probe`) must succeed
    /// and its images are not kept; otherwise the images are part of the
    /// answer and a failure ends the request with that error.
    Fetch { url: String, probe: bool },
    /// A template could not be filled: the request ends with this error.
    Fail(FmtError),
    /// Stop: the images kept so far, in order, are the answer.
    Finish,
}

/// Where a `TemplateSession` stands.
#[derive(Clone, Copy, Debug, PartialEq, Eq, Structural)]
pub enum TemplateStage {
    /// Fetching the one URL of a request that is not random.
    Direct,
    /// Counting the images of the query.
    Counting(PageCounter),
    /// Fetching random images; this many more are to follow.
    Sampling(u64),
    /// Done.
    Finished,
}

/// The decisions of `REQUEST::get_images`, one step per fetched page.
#[derive(Debug)]
pub struct TemplateSession {
    /// The template for one image, filled with a random page.
    pub template: String,
    /// The template for a thousand images, filled with the probed page.
    pub clarification: String,
    pub limit: u16,
    pub total: u64,
    /// The pages drawn at random so far, in order.
    pub draws: Vec<RandomPage>,
    pub stage: TemplateStage,
    pub action: TemplateAction,
}

impl TemplateSession {
    /// The parts that stay the same for the whole session.
    pub open spec fn same_request(self, other: TemplateSession) -> bool {
        &&& self.template@ == other.template@
        &&& self.clarification@ == other.clarification@
        &&& self.limit == other.limit
    }

    /// The session fetches `template` filled with `page`, or fails when it
    /// cannot be filled.
    pub open spec fn fetches(self, template: Seq<char>, page: u64, probe: bool) -> bool {
        match strfmt_image(template, page) {
            Some(url) => {
                &&& self.action matches TemplateAction::Fetch { url: u, probe: p }
                &&& u@ == url && p == probe
            },
            None => self.stage == TemplateStage::Finished && self.action is Fail,
        }
    }

    /// The session probes page `c.page` of the count `c`.
    pub open spec fn probing(self, c: PageCounter) -> bool {
        &&& strfmt_image(self.clarification@, c.page) is Some ==> self.stage
            == TemplateStage::Counting(c)
        &&& self.fetches(self.clarification@, c.page, true)
    }

    /// The session has `total` images to choose from and `remaining` more
    /// to fetch, after the draws `before`: it stops when none remain, and
    /// otherwise draws one more page at random from `1..=total` and fetches
    /// the one-image template filled with that page.
    pub open spec fn sampling(self, total: u64, remaining: u64, before: Seq<RandomPage>) -> bool {
        &&& self.total == total
        &&& if remaining == 0 {
            &&& self.stage == TemplateStage::Finished
            &&& self.action is Finish
            &&& self.draws@ == before
        } else {
            let page = self.draws@.last().drawn();
            &&& self.draws@.len() == before.len() + 1
            &&& self.draws@.drop_last() == before
            &&& self.draws@.last().range_end() == total
            &&& 1 <= page <= total
            &&& strfmt_image(self.template@, page) is Some ==> self.stage
                == TemplateStage::Sampling((remaining - 1) as u64)
            &&& self.fetches(self.template@, page, false)
        }
    }

    /// The session as it starts for `r`.
    pub open spec fn starts(self, r: REQUEST) -> bool {
        &&& self.total == 0
        &&& match r {
            REQUEST::Request(url) => {
                &&& self.draws@.len() == 0
                &&& self.stage == TemplateStage::Direct
                &&& self.action matches TemplateAction::Fetch { url: u, probe }
                &&& u@ == url@ && !probe
            },
            REQUEST::RandomTemplate(templates, limit) => {
                &&& self.template@ == templates[0]@
                &&& self.clarification@ == templates[1]@
                &&& self.limit == limit
                &&& self.draws@.len() == 0
                &&& self.probing(PageCounter::start(COUNT_PAGE_SIZE, false))
            },
        }
    }

    /// The page sizes the session takes in: those on which the count's
    /// arithmetic stays in range, and, where the count ends, a count of at
    /// least one image unless no random image is asked for (a random page
    /// cannot be picked from none).
    pub open spec fn accepts(self, len: u64) -> bool {
        match self.stage {
            TemplateStage::Direct => true,
            TemplateStage::Counting(c) => {
                &&& c.step_defined(len)
                &&& (c.next(len).phase is Done && self.limit > 0) ==> c.next(len).total >= 1
            },
            TemplateStage::Sampling(_) => self.total >= 1,
            TemplateStage::Finished => false,
        }
    }

    /// `next` is the session after this one learns that `len` images came
    /// back.
    pub open spec fn steps_to(self, len: u64, next: TemplateSession) -> bool {
        &&& next.same_request(self)
        &&& match self.stage {
            TemplateStage::Direct => {
                next.total == self.total && next.stage == TemplateStage::Finished
                    && next.action is Finish && next.draws@ == self.draws@
            },
            TemplateStage::Counting(c) => {
                let c2 = c.next(len);
                if c2.phase is Done {
                    next.sampling(c2.total, self.limit as u64, self.draws@)
                } else {
                    next.total == self.total && next.draws@ == self.draws@ && next.probing(c2)
                }
            },
            TemplateStage::Sampling(remaining) => next.sampling(
                self.total,
                remaining,
                self.draws@,
            ),
            TemplateStage::Finished => true,
        }
    }

    fn probe(&mut self, c: PageCounter)
        ensures
            final(self).draws@ == old(self).draws@,
            final(self).same_request(*old(self)),
            final(self).total == old(self).total,
            final(self).probing(c),
    {
        match format_page(self.clarification.as_str(), c.page()) {
            Ok(url) => {
                self.stage = TemplateStage::Counting(c);
                self.action = TemplateAction::Fetch { url, probe: true };
            },
            Err(e) => {
                self.stage = TemplateStage::Finished;
                self.action = TemplateAction::Fail(e);
            },
        }
    }

    fn sample(&mut self, total: u64, remaining: u64)
        requires
            remaining > 0 ==> total >= 1,
        ensures
            final(self).same_request(*old(self)),
            final(self).sampling(total, remaining, old(self).draws@),
    {
        self.total = total;
        if remaining == 0 {
            self.stage = TemplateStage::Finished;
            self.action = TemplateAction::Finish;
        } else {
            let draw = random_page(total);
            let page = draw.page();
            match format_page(self.template.as_str(), page) {
                Ok(url) => {
                    self.stage = TemplateStage::Sampling(remaining - 1);
                    self.action = TemplateAction::Fetch { url, probe: false };
                },
                Err(e) => {
                    self.stage = TemplateStage::Finished;
                    self.action = TemplateAction::Fail(e);
                },
            }
            let ghost before = self.draws@;
            self.draws.push(draw);
            assert(self.draws@.drop_last() =~= before);
        }
    }

    /// Starts the session for a built request.
    pub fn start(r: REQUEST) -> (s: TemplateSession)
        ensures
            s.starts(r),
    {
        match r {
            REQUEST::Request(url) => TemplateSession {
                template: String::new(),
                clarification: String::new(),
                limit: 0,
                total: 0,
                draws: Vec::new(),
                stage: TemplateStage::Direct,
                action: TemplateAction::Fetch { url, probe: false },
            },
            REQUEST::RandomTemplate(templates, limit) => {
                let template = templates[0].clone();
                let clarification = templates[1].clone();
                let mut s = TemplateSession {
                    template,
                    clarification,
                    limit,
                    total: 0,
                    draws: Vec::new(),
                    stage: TemplateStage::Finished,
                    action: TemplateAction::Finish,
                };
                s.probe(PageCounter::new(COUNT_PAGE_SIZE, false));
                s
            },
        }
    }

    /// What to do next.
    pub fn action(&self) -> (a: &TemplateAction)
        ensures
            *a == self.action,
    {
        &self.action
    }

    /// Whether the session takes in `len`, as `accepts` says.
    pub fn can_accept(&self, len: u64) -> (b: bool)
        ensures
            b == self.accepts(len),
    {
        match self.stage {
            TemplateStage::Direct => true,
            TemplateStage::Counting(c) => {
                if !c.can_step(len) {
                    false
                } else {
                    let mut c2 = c;
                    match c2.step(len) {
                        CountStep::Finished(total) => self.limit == 0 || total >= 1,
                        CountStep::Fetch(_) => true,
                    }
                }
            },
            TemplateStage::Sampling(_) => self.total >= 1,
            TemplateStage::Finished => false,
        }
    }

    /// Takes in that `len` images came back from the last fetch and
    /// decides the next action.
    pub fn step(&mut self, len: u64)
        requires
            old(self).accepts(len),
        ensures
            old(self).steps_to(len, *final(self)),
    {
        match self.stage {
            TemplateStage::Direct => {
                self.stage = TemplateStage::Finished;
                self.action = TemplateAction::Finish;
            },
            TemplateStage::Counting(c) => {
                let mut counter = c;
                match counter.step(len) {
                    CountStep::Fetch(_) => self.probe(counter),
                    CountStep::Finished(total) => {
                        let limit = self.limit as u64;
                        self.sample(total, limit);
                    },
                }
            },
            TemplateStage::Sampling(remaining) => {
                let total = self.total;
                self.sample(total, remaining);
            },
            TemplateStage::Finished => {},
        }
    }
}

/// Each random pick fetches a page the generator drew for it: taking in a
/// fetched page while more picks remain, a session keeps its earlier draws,
/// draws one new page from `1..=total`, and fetches the one-image template
/// filled with exactly that page.
pub proof fn lemma_template_pick_uses_new_draw(s: TemplateSession, len: u64, next: TemplateSession)
    requires
        s.stage is Sampling,
        s.stage->Sampling_0 > 0,
        s.steps_to(len, next),
    ensures
        next.draws@.len() == s.draws@.len() + 1,
        next.draws@.subrange(0, s.draws@.len() as int) == s.draws@,
        next.draws@.last().range_end() == s.total,
        1 <= next.draws@.last().drawn() <= s.total,
        strfmt_image(s.template@, next.draws@.last().drawn()) matches Some(url) ==> (
        next.action matches TemplateAction::Fetch { url: u, probe } && u@ == url && !probe),
{
    assert(next.draws@.drop_last() =~= next.draws@.subrange(0, s.draws@.len() as int));
}

/// The count made by a session is exact: while a session counts against a
/// board that answers every page as a query with `n` images would, each
/// answer is accepted and either keeps the count on track and closer to its
/// end (or stops on a template that cannot be filled), or ends it and
/// samples among exactly `n` images.
pub proof fn lemma_template_count_is_exact(s: TemplateSession, next: TemplateSession, n: nat)
    requires
        s.stage is Counting,
        s.stage->Counting_0.tracks(n),
        !(s.stage->Counting_0.phase is Done),
        s.steps_to(
            page_len(n, s.stage->Counting_0.page_size as nat, s.stage->Counting_0.page as int)
                as u64,
            next,
        ),
    ensures
        s.accepts(
            page_len(n, s.stage->Counting_0.page_size as nat, s.stage->Counting_0.page as int)
                as u64,
        ),
        next.stage is Counting ==> {
            &&& next.stage->Counting_0.tracks(n)
            &&& next.stage->Counting_0.probes_left(n) < s.stage->Counting_0.probes_left(n)
        },
        next.stage is Sampling ==> next.total == n,
{
    let c = s.stage->Counting_0;
    lemma_count_step(c, n);
    let c2 = c.next(page_len(n, c.page_size as nat, c.page as int) as u64);
    if c2.phase is Done {
        assert(c2.total == n);
        assert(n >= 1 || c.empty_first_page_means_none);
    }
}

} // verus!
