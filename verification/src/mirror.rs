use crate::htmlscan::{attr_values_of, html_attr_values};
use crate::resolve::vec_contains_string;
use crate::rewrite::{replace_all, spec_replace_all};
use crate::urlparse::{host_of, join_of, path_of, url_host, url_join, url_path};
use crate::util::{
    contains_char, contains_seq, last_index_of, lemma_last_index_of_bounds, rfind_char,
    spec_last_segment, starts_with_seq, str_contains, str_eq, str_starts_with,
};
use crate::FetchError;
use vstd::prelude::*;
use vstd::string::*;

verus! {

/// What a fetched resource is, read off its content type: HTML gets its
/// links extracted and rewritten, text assets (stylesheets, scripts) and
/// binaries are saved verbatim.
#[derive(Clone, Copy, Debug, PartialEq, Eq, Structural)]
pub enum ContentKind {
    Html,
    TextAsset,
    Binary,
}

/// How a content-type header is classified.
pub open spec fn spec_classify(ct: Seq<char>) -> ContentKind {
    if contains_seq(ct, "text/html"@) {
        ContentKind::Html
    } else if contains_seq(ct, "text/css"@) || contains_seq(ct, "application/javascript"@) {
        ContentKind::TextAsset
    } else {
        ContentKind::Binary
    }
}

/// Classifies a content-type header value.
pub fn classify_content(content_type: &str) -> (r: ContentKind)
    ensures
        r == spec_classify(content_type@),
{
    if str_contains(content_type, "text/html") {
        ContentKind::Html
    } else if str_contains(content_type, "text/css") || str_contains(
        content_type,
        "application/javascript",
    ) {
        ContentKind::TextAsset
    } else {
        ContentKind::Binary
    }
}

/// The extension of a file name: what follows the last `.`, provided that
/// dot is neither absent nor the leading character.
pub open spec fn spec_extension_of(name: Seq<char>) -> Option<Seq<char>> {
    let p = last_index_of(name, '.');
    if p <= 0 {
        None
    } else {
        Some(name.subrange(p + 1, name.len() as int))
    }
}

/// The characters of `index.html`, the name given to directory-like URLs.
pub open spec fn spec_index_html() -> Seq<char> {
    seq!['i', 'n', 'd', 'e', 'x', '.', 'h', 't', 'm', 'l']
}

/// Where under the mirror's output directory a URL path is saved: the
/// root path becomes `index.html`, a path ending in `/` gets `index.html`
/// appended, a path whose final segment has no `.` gets `/index.html`
/// appended, and any other path is used verbatim; the leading `/` is
/// stripped.
pub open spec fn spec_relative_path(path: Seq<char>) -> Seq<char> {
    let derived = if path == seq!['/'] {
        seq!['/'] + spec_index_html()
    } else if path.len() > 0 && path[path.len() - 1] == '/' {
        path + spec_index_html()
    } else if !spec_last_segment(path).contains('.') {
        path + seq!['/'] + spec_index_html()
    } else {
        path
    };
    derived.drop_first()
}

/// Whether the mirror's policy turns a URL away: its file extension is
/// rejected, or its path starts with an excluded prefix.  A URL that does
/// not parse is not excluded here (its fetch fails instead).
pub open spec fn spec_should_exclude(
    rejected: Seq<Seq<char>>,
    excluded: Seq<Seq<char>>,
    url: Seq<char>,
) -> bool {
    match path_of(url) {
        None => false,
        Some(path) => {
            let ext_hit = match spec_extension_of(spec_last_segment(path)) {
                Some(e) => rejected.contains(e),
                None => false,
            };
            ext_hit || exists|i: int|
                0 <= i < excluded.len() && starts_with_seq(path, #[trigger] excluded[i])
        },
    }
}

fn index_html_string() -> (r: String)
    ensures
        r@ == spec_index_html(),
{
    let s = String::from_str("index.html");
    proof {
        reveal_strlit("index.html");
        assert(s@ =~= spec_index_html());
    }
    s
}

/// Derives the saved location for a URL path, before the output directory
/// is joined on.
fn relative_path_of(path: &str) -> (r: String)
    ensures
        r@ == spec_relative_path(path@),
{
    let n: usize = path.unicode_len();
    let derived: String = if n == 1 && path.get_char(0) == '/' {
        proof {
            assert(path@ =~= seq!['/']);
        }
        let mut d = String::from_str(path);
        d.append(index_html_string().as_str());
        d
    } else if n > 0 && path.get_char(n - 1) == '/' {
        proof {
            if path@ == seq!['/'] {
                assert(path@.len() == 1);
            }
        }
        let mut d = String::from_str(path);
        d.append(index_html_string().as_str());
        d
    } else {
        proof {
            if path@ == seq!['/'] {
                assert(path@[path@.len() - 1] == '/');
            }
            lemma_last_index_of_bounds(path@, '/');
        }
        let seg_start: usize = match rfind_char(path, '/') {
            Some(i) => i + 1,
            None => 0,
        };
        let seg = path.substring_char(seg_start, n);
        proof {
            assert(seg@ =~= spec_last_segment(path@));
        }
        if contains_char(seg, '.') {
            String::from_str(path)
        } else {
            let mut d = String::from_str(path);
            let mut tail = String::from_str("/");
            proof {
                reveal_strlit("/");
                assert(tail@ =~= seq!['/']);
            }
            tail.append(index_html_string().as_str());
            d.append(tail.as_str());
            d
        }
    };
    let dn: usize = derived.unicode_len();
    let r = String::from_str(derived.as_str().substring_char(if dn == 0 {
        0
    } else {
        1
    }, dn));
    proof {
        if derived@.len() == 0 {
            assert(derived@.subrange(0, 0) =~= derived@.drop_first());
        } else {
            assert(derived@.subrange(1, derived@.len() as int) =~= derived@.drop_first());
        }
    }
    r
}

/// The single-owner crawl state of one mirror run: the frontier queue of
/// discovered URLs, the set of URLs already handled, and the immutable
/// scope policy.  The output directory is named after the origin host.
pub struct WebsiteMirror {
    pub host: String,
    pub output_dir: String,
    pub queue: Vec<String>,
    pub visited: Vec<String>,
    pub rejected_extensions: Vec<String>,
    pub excluded_paths: Vec<String>,
    pub convert_links: bool,
}

impl WebsiteMirror {
    /// Starts a mirror for `url`: the crawl is scoped to the URL's host,
    /// which also names the output directory, and the frontier initially
    /// holds the seed URL alone.  A URL without a host is refused.
    pub fn new(
        url: String,
        rejected_extensions: Vec<String>,
        excluded_paths: Vec<String>,
        convert_links: bool,
    ) -> (r: Result<WebsiteMirror, FetchError>)
        ensures
            r is Ok <==> host_of(url@) is Some,
            r matches Ok(m) ==> {
                &&& host_of(url@) matches Some(h) && m.host@ == h
                &&& m.output_dir@ == m.host@
                &&& m.queue.deep_view() =~= seq![url@]
                &&& m.visited@.len() == 0
                &&& m.rejected_extensions == rejected_extensions
                &&& m.excluded_paths == excluded_paths
                &&& m.convert_links == convert_links
            },
    {
        let host = match url_host(url.as_str()) {
            Some(h) => h,
            None => {
                return Err(FetchError::Parse);
            },
        };
        let output_dir = host.clone();
        let mut queue: Vec<String> = Vec::new();
        queue.push(url);
        Ok(
            WebsiteMirror {
                host,
                output_dir,
                queue,
                visited: Vec::new(),
                rejected_extensions,
                excluded_paths,
                convert_links,
            },
        )
    }

    /// Takes the next URL off the front of the frontier, if any.
    pub fn pop_front(&mut self) -> (r: Option<String>)
        ensures
            final(self).host == old(self).host,
            final(self).output_dir == old(self).output_dir,
            final(self).visited == old(self).visited,
            final(self).rejected_extensions == old(self).rejected_extensions,
            final(self).excluded_paths == old(self).excluded_paths,
            final(self).convert_links == old(self).convert_links,
            old(self).queue@.len() == 0 ==> r is None && final(self).queue == old(self).queue,
            old(self).queue@.len() > 0 ==> {
                &&& r matches Some(u) && u@ == old(self).queue.deep_view()[0]
                &&& final(self).queue.deep_view() =~= old(self).queue.deep_view().drop_first()
            },
    {
        if self.queue.len() == 0 {
            None
        } else {
            let u = self.queue.remove(0);
            proof {
                assert(final(self).queue.deep_view() =~= old(
                    self,
                ).queue.deep_view().drop_first());
            }
            Some(u)
        }
    }

    /// Whether a URL was already handled in this crawl.
    pub fn is_visited(&self, url: &str) -> (r: bool)
        ensures
            r == self.visited.deep_view().contains(url@),
    {
        vec_contains_string(&self.visited, url)
    }

    /// Records a URL as handled, whatever came of its fetch: the crawl
    /// never retries a URL.
    pub fn mark_visited(&mut self, url: String)
        ensures
            final(self).host == old(self).host,
            final(self).output_dir == old(self).output_dir,
            final(self).queue == old(self).queue,
            final(self).rejected_extensions == old(self).rejected_extensions,
            final(self).excluded_paths == old(self).excluded_paths,
            final(self).convert_links == old(self).convert_links,
            final(self).visited.deep_view() =~= old(self).visited.deep_view().push(url@),
    {
        self.visited.push(url);
        proof {
            assert(final(self).visited.deep_view() =~= old(self).visited.deep_view().push(
                url@,
            ));
        }
    }

    /// Applies the scope policy to a URL before it is fetched.
    pub fn should_exclude(&self, url: &str) -> (r: bool)
        ensures
            r == spec_should_exclude(
                self.rejected_extensions.deep_view(),
                self.excluded_paths.deep_view(),
                url@,
            ),
    {
        let path = match url_path(url) {
            Some(p) => p,
            None => {
                return false;
            },
        };
        let ps = path.as_str();
        let pn: usize = ps.unicode_len();
        proof {
            lemma_last_index_of_bounds(ps@, '/');
        }
        let seg_start: usize = match rfind_char(ps, '/') {
            Some(i) => i + 1,
            None => 0,
        };
        let seg = ps.substring_char(seg_start, pn);
        let sn: usize = seg.unicode_len();
        proof {
            assert(seg@ == spec_last_segment(ps@));
            lemma_last_index_of_bounds(seg@, '.');
        }
        match rfind_char(seg, '.') {
            Some(p) if p > 0 => {
                let ext = seg.substring_char(p + 1, sn);
                if vec_contains_string(&self.rejected_extensions, ext) {
                    return true;
                }
            },
            _ => {},
        }
        let m: usize = self.excluded_paths.len();
        let mut i: usize = 0;
        while i < m
            invariant
                i <= m,
                m == self.excluded_paths@.len(),
                path_of(url@) matches Some(pp) && pp == ps@,
                forall|j: int|
                    0 <= j < i ==> !starts_with_seq(
                        ps@,
                        #[trigger] self.excluded_paths.deep_view()[j],
                    ),
            decreases m - i,
        {
            if str_starts_with(ps, self.excluded_paths[i].as_str()) {
                proof {
                    assert(starts_with_seq(ps@, self.excluded_paths.deep_view()[i as int]));
                }
                return true;
            }
            i = i + 1;
        }
        proof {
            if exists|j: int|
                0 <= j < self.excluded_paths.deep_view().len() && starts_with_seq(
                    ps@,
                    #[trigger] self.excluded_paths.deep_view()[j],
                ) {
                let j = choose|j: int|
                    0 <= j < self.excluded_paths.deep_view().len() && starts_with_seq(
                        ps@,
                        #[trigger] self.excluded_paths.deep_view()[j],
                    );
            }
        }
        false
    }

    /// Where a fetched URL is saved, relative to the output directory; a
    /// URL that does not parse is a parse error.
    pub fn get_relative_path(&self, url: &str) -> (r: Result<String, FetchError>)
        ensures
            match path_of(url@) {
                None => r == Err::<String, FetchError>(FetchError::Parse),
                Some(p) => r matches Ok(s) && s@ == spec_relative_path(p),
            },
    {
        match url_path(url) {
            None => Err(FetchError::Parse),
            Some(p) => Ok(relative_path_of(p.as_str())),
        }
    }
}

/// Every outbound reference of an HTML document, in the order the six
/// scanned selector/attribute pairs yield them.
pub open spec fn spec_all_links(html: Seq<char>) -> Seq<Seq<char>> {
    attr_values_of(html, "a[href]"@, "href"@) + attr_values_of(html, "link[href]"@, "href"@)
        + attr_values_of(html, "img[src]"@, "src"@) + attr_values_of(
        html,
        "script[src]"@,
        "src"@,
    ) + attr_values_of(html, "link[rel='stylesheet']"@, "href"@) + attr_values_of(
        html,
        "style"@,
        "textContent"@,
    )
}

/// What one extracted reference adds to the frontier: its absolute form,
/// but only when it resolves against the page URL and stays on the page's
/// host.  Cross-host links are never enqueued.
pub open spec fn spec_enqueue_one(link: Seq<char>, base: Seq<char>) -> Seq<Seq<char>> {
    match join_of(base, link) {
        Some(u) => if host_of(u) == host_of(base) {
            seq![u]
        } else {
            Seq::empty()
        },
        None => Seq::empty(),
    }
}

/// What a list of extracted references adds to the frontier, in order.
pub open spec fn spec_enqueued(links: Seq<Seq<char>>, base: Seq<char>) -> Seq<Seq<char>>
    decreases links.len(),
{
    if links.len() == 0 {
        Seq::<Seq<char>>::empty()
    } else {
        spec_enqueue_one(links[0], base) + spec_enqueued(links.drop_first(), base)
    }
}

/// The text a link's literal occurrences are replaced by when links are
/// converted: the local relative path of its absolute URL, or the link
/// itself when no path can be derived.
pub open spec fn spec_link_replacement(u: Seq<char>, link: Seq<char>) -> Seq<char> {
    match path_of(u) {
        Some(p) => spec_relative_path(p),
        None => link,
    }
}

/// One step of link conversion: a reference that resolves has every
/// occurrence of its literal text replaced; one that does not leaves the
/// document alone.
pub open spec fn spec_rewrite_one(h: Seq<char>, link: Seq<char>, base: Seq<char>) -> Seq<char> {
    match join_of(base, link) {
        Some(u) => spec_replace_all(h, link, spec_link_replacement(u, link)),
        None => h,
    }
}

/// The document after every reference in `links` has been converted, in
/// order.  The substitution is textual, so a later link's replacement can
/// touch text an earlier one produced.
pub open spec fn spec_rewritten(h: Seq<char>, links: Seq<Seq<char>>, base: Seq<char>) -> Seq<char>
    decreases links.len(),
{
    if links.len() == 0 {
        h
    } else {
        spec_rewritten(spec_rewrite_one(h, links[0], base), links.drop_first(), base)
    }
}

pub proof fn lemma_enqueued_concat(a: Seq<Seq<char>>, b: Seq<Seq<char>>, base: Seq<char>)
    ensures
        spec_enqueued(a + b, base) =~= spec_enqueued(a, base) + spec_enqueued(b, base),
    decreases a.len(),
{
    if a.len() == 0 {
        assert(a + b =~= b);
        assert(spec_enqueued(a, base) =~= Seq::<Seq<char>>::empty());
    } else {
        assert((a + b)[0] == a[0]);
        assert((a + b).drop_first() =~= a.drop_first() + b);
        lemma_enqueued_concat(a.drop_first(), b, base);
    }
}

pub proof fn lemma_rewritten_concat(
    h: Seq<char>,
    a: Seq<Seq<char>>,
    b: Seq<Seq<char>>,
    base: Seq<char>,
)
    ensures
        spec_rewritten(h, a + b, base) == spec_rewritten(spec_rewritten(h, a, base), b, base),
    decreases a.len(),
{
    if a.len() == 0 {
        assert(a + b =~= b);
    } else {
        assert((a + b)[0] == a[0]);
        assert((a + b).drop_first() =~= a.drop_first() + b);
        lemma_rewritten_concat(spec_rewrite_one(h, a[0], base), a.drop_first(), b, base);
    }
}

/// Whether two URL strings name the same host.
fn same_host(a: &str, b: &str) -> (r: bool)
    ensures
        r == (host_of(a@) == host_of(b@)),
{
    let ha = url_host(a);
    let hb = url_host(b);
    match (ha, hb) {
        (Some(x), Some(y)) => {
            let e = str_eq(x.as_str(), y.as_str());
            proof {
                if e {
                    assert(host_of(a@) == host_of(b@));
                }
            }
            e
        },
        (None, None) => true,
        _ => false,
    }
}

impl WebsiteMirror {
    /// Handles one list of extracted references: enqueues the same-host
    /// ones and, when link conversion is on, rewrites their occurrences
    /// in the document text.
    fn process_link_list(&mut self, links: &Vec<String>, current: String, base_url: &str) -> (r:
        String)
        ensures
            final(self).host == old(self).host,
            final(self).output_dir == old(self).output_dir,
            final(self).visited == old(self).visited,
            final(self).rejected_extensions == old(self).rejected_extensions,
            final(self).excluded_paths == old(self).excluded_paths,
            final(self).convert_links == old(self).convert_links,
            final(self).queue.deep_view() =~= old(self).queue.deep_view() + spec_enqueued(
                links.deep_view(),
                base_url@,
            ),
            r@ == if old(self).convert_links {
                spec_rewritten(current@, links.deep_view(), base_url@)
            } else {
                current@
            },
    {
        let ghost q0 = self.queue.deep_view();
        let ghost c0 = current@;
        let mut cur = current;
        let n: usize = links.len();
        let mut i: usize = 0;
        proof {
            assert(links.deep_view().subrange(0, 0) =~= Seq::<Seq<char>>::empty());
        }
        while i < n
            invariant
                i <= n,
                n == links@.len(),
                self.host == old(self).host,
                self.output_dir == old(self).output_dir,
                self.visited == old(self).visited,
                self.rejected_extensions == old(self).rejected_extensions,
                self.excluded_paths == old(self).excluded_paths,
                self.convert_links == old(self).convert_links,
                self.queue.deep_view() =~= q0 + spec_enqueued(
                    links.deep_view().subrange(0, i as int),
                    base_url@,
                ),
                cur@ == if old(self).convert_links {
                    spec_rewritten(c0, links.deep_view().subrange(0, i as int), base_url@)
                } else {
                    c0
                },
            decreases n - i,
        {
            let ghost done = links.deep_view().subrange(0, i as int);
            let ghost link_v = links.deep_view()[i as int];
            match url_join(base_url, links[i].as_str()) {
                Some(abs) => {
                    if same_host(abs.as_str(), base_url) {
                        let ghost qb = self.queue.deep_view();
                        self.queue.push(abs.clone());
                        proof {
                            assert(self.queue.deep_view() =~= qb.push(abs@));
                            assert(qb.push(abs@) =~= qb + seq![abs@]);
                        }
                    }
                    if self.convert_links {
                        let repl: String = match url_path(abs.as_str()) {
                            Some(p) => relative_path_of(p.as_str()),
                            None => {
                                let l = links[i].clone();
                                l
                            },
                        };
                        cur = replace_all(cur.as_str(), links[i].as_str(), repl.as_str());
                    }
                },
                None => {},
            }
            proof {
                let next = links.deep_view().subrange(0, i + 1);
                assert(next.drop_last() =~= done);
                assert(next[i as int] == link_v);
                assert(links.deep_view()[i as int] == links@[i as int]@);
                lemma_enqueued_concat(done, seq![link_v], base_url@);
                assert(done + seq![link_v] =~= next);
                let single = seq![link_v];
                assert(single.len() == 1);
                assert(single[0] == link_v);
                assert(single.drop_first() =~= Seq::<Seq<char>>::empty());
                assert(spec_enqueued(single, base_url@) == spec_enqueue_one(link_v, base_url@)
                    + spec_enqueued(single.drop_first(), base_url@));
                assert(spec_enqueued(single.drop_first(), base_url@) == Seq::<Seq<char>>::empty());
                assert(spec_enqueue_one(link_v, base_url@) + Seq::<Seq<char>>::empty()
                    =~= spec_enqueue_one(link_v, base_url@));
                assert(spec_enqueued(single, base_url@) =~= spec_enqueue_one(link_v, base_url@));
                lemma_rewritten_concat(c0, done, seq![link_v], base_url@);
                let mid = if old(self).convert_links {
                    spec_rewritten(c0, done, base_url@)
                } else {
                    c0
                };
                assert(spec_rewritten(mid, seq![link_v], base_url@) == spec_rewritten(
                    spec_rewrite_one(mid, link_v, base_url@),
                    Seq::<Seq<char>>::empty(),
                    base_url@,
                ));
            }
            i = i + 1;
        }
        proof {
            assert(links.deep_view().subrange(0, n as int) =~= links.deep_view());
        }
        cur
    }

    /// Scans a fetched HTML document: discovers its outbound references,
    /// enqueues those on the crawl's own host, and — when link conversion
    /// is on — returns the document with every resolvable reference
    /// textually replaced by its local relative path.  Cross-host
    /// references are rewritten too, but never enqueued.
    pub fn process_html(&mut self, html: &str, base_url: &str) -> (r: String)
        ensures
            final(self).host == old(self).host,
            final(self).output_dir == old(self).output_dir,
            final(self).visited == old(self).visited,
            final(self).rejected_extensions == old(self).rejected_extensions,
            final(self).excluded_paths == old(self).excluded_paths,
            final(self).convert_links == old(self).convert_links,
            final(self).queue.deep_view() =~= old(self).queue.deep_view() + spec_enqueued(
                spec_all_links(html@),
                base_url@,
            ),
            r@ == if old(self).convert_links {
                spec_rewritten(html@, spec_all_links(html@), base_url@)
            } else {
                html@
            },
    {
        let l1 = html_attr_values(html, "a[href]", "href");
        let l2 = html_attr_values(html, "link[href]", "href");
        let l3 = html_attr_values(html, "img[src]", "src");
        let l4 = html_attr_values(html, "script[src]", "src");
        let l5 = html_attr_values(html, "link[rel='stylesheet']", "href");
        let l6 = html_attr_values(html, "style", "textContent");
        let mut cur = String::from_str(html);
        cur = self.process_link_list(&l1, cur, base_url);
        cur = self.process_link_list(&l2, cur, base_url);
        cur = self.process_link_list(&l3, cur, base_url);
        cur = self.process_link_list(&l4, cur, base_url);
        cur = self.process_link_list(&l5, cur, base_url);
        cur = self.process_link_list(&l6, cur, base_url);
        proof {
            let b = base_url@;
            let h = html@;
            let a1 = l1.deep_view();
            let a2 = l2.deep_view();
            let a3 = l3.deep_view();
            let a4 = l4.deep_view();
            let a5 = l5.deep_view();
            let a6 = l6.deep_view();
            lemma_enqueued_concat(a1, a2, b);
            lemma_enqueued_concat(a1 + a2, a3, b);
            lemma_enqueued_concat(a1 + a2 + a3, a4, b);
            lemma_enqueued_concat(a1 + a2 + a3 + a4, a5, b);
            lemma_enqueued_concat(a1 + a2 + a3 + a4 + a5, a6, b);
            lemma_rewritten_concat(h, a1, a2, b);
            lemma_rewritten_concat(h, a1 + a2, a3, b);
            lemma_rewritten_concat(h, a1 + a2 + a3, a4, b);
            lemma_rewritten_concat(h, a1 + a2 + a3 + a4, a5, b);
            lemma_rewritten_concat(h, a1 + a2 + a3 + a4 + a5, a6, b);
        }
        cur
    }
}

/// Every URL the frontier gains from an HTML document sits on the same
/// host as the page it was found on: the crawl never reaches outside its
/// origin host.
pub proof fn lemma_enqueued_same_host(links: Seq<Seq<char>>, base: Seq<char>)
    ensures
        forall|i: int|
            0 <= i < spec_enqueued(links, base).len() ==> host_of(
                #[trigger] spec_enqueued(links, base)[i],
            ) == host_of(base),
    decreases links.len(),
{
    if links.len() > 0 {
        lemma_enqueued_same_host(links.drop_first(), base);
        let head = spec_enqueue_one(links[0], base);
        assert forall|i: int| 0 <= i < spec_enqueued(links, base).len() implies host_of(
            #[trigger] spec_enqueued(links, base)[i],
        ) == host_of(base) by {
            if i < head.len() {
                assert(spec_enqueued(links, base)[i] == head[i]);
            } else {
                assert(spec_enqueued(links, base)[i] == spec_enqueued(links.drop_first(), base)[
                    i - head.len()]);
            }
        }
    }
}

} // verus!
