use crate::mirror::{
    classify_content, spec_all_links, spec_classify, spec_enqueued, spec_relative_path,
    spec_should_exclude, ContentKind, WebsiteMirror,
};
use crate::urlparse::{host_of, path_of};
use crate::util::str_eq;
use crate::FetchError;
use vstd::prelude::*;
use vstd::string::*;

verus! {

/// One page of a site snapshot as the crawl model sees it: the exact URL
/// it is served under, its content-type header, and its body text.
pub struct SitePage {
    pub url: String,
    pub content_type: String,
    pub body: String,
}

/// A site snapshot as a mathematical value: one (url, content type, body)
/// triple per page.
pub open spec fn spec_site_view(site: Seq<SitePage>) -> Seq<(Seq<char>, Seq<char>, Seq<char>)> {
    site.map_values(|p: SitePage| (p.url@, p.content_type@, p.body@))
}

/// The first page of `site` served under the URL `u`.
pub open spec fn spec_site_lookup(
    site: Seq<(Seq<char>, Seq<char>, Seq<char>)>,
    u: Seq<char>,
) -> Option<(Seq<char>, Seq<char>, Seq<char>)>
    decreases site.len(),
{
    if site.len() == 0 {
        None
    } else if site[0].0 == u {
        Some(site[0])
    } else {
        spec_site_lookup(site.drop_first(), u)
    }
}

/// How many pages of `site` have a URL not yet in `visited`: the measure
/// that shrinks as the crawl makes progress.
pub open spec fn count_unvisited(
    site: Seq<(Seq<char>, Seq<char>, Seq<char>)>,
    visited: Seq<Seq<char>>,
) -> nat
    decreases site.len(),
{
    if site.len() == 0 {
        0
    } else {
        (if visited.contains(site[0].0) {
            0nat
        } else {
            1nat
        }) + count_unvisited(site.drop_first(), visited)
    }
}

pub proof fn lemma_push_contains(v: Seq<Seq<char>>, u: Seq<char>, x: Seq<char>)
    ensures
        v.push(u).contains(x) <==> (v.contains(x) || x == u),
{
    if v.push(u).contains(x) {
        let i = choose|i: int| 0 <= i < v.push(u).len() && v.push(u)[i] == x;
        if i < v.len() {
            assert(v[i] == x);
        }
    }
    if v.contains(x) {
        let i = choose|i: int| 0 <= i < v.len() && v[i] == x;
        assert(v.push(u)[i] == x);
    }
    if x == u {
        assert(v.push(u)[v.len() as int] == x);
    }
}

pub proof fn lemma_count_monotone(
    site: Seq<(Seq<char>, Seq<char>, Seq<char>)>,
    visited: Seq<Seq<char>>,
    u: Seq<char>,
)
    ensures
        count_unvisited(site, visited.push(u)) <= count_unvisited(site, visited),
    decreases site.len(),
{
    if site.len() > 0 {
        lemma_push_contains(visited, u, site[0].0);
        lemma_count_monotone(site.drop_first(), visited, u);
    }
}

pub proof fn lemma_count_strict(
    site: Seq<(Seq<char>, Seq<char>, Seq<char>)>,
    visited: Seq<Seq<char>>,
    u: Seq<char>,
)
    requires
        spec_site_lookup(site, u) is Some,
        !visited.contains(u),
    ensures
        count_unvisited(site, visited.push(u)) < count_unvisited(site, visited),
    decreases site.len(),
{
    lemma_push_contains(visited, u, site[0].0);
    if site[0].0 == u {
        lemma_count_monotone(site.drop_first(), visited, u);
    } else {
        lemma_count_strict(site.drop_first(), visited, u);
    }
}

/// The relative paths a crawl saves, in order, given its frontier, its
/// visited set, its scope policy and a site snapshot.  The crawl pops the
/// frontier head; a visited URL is skipped, an excluded one only marked
/// visited; a URL the site does not serve fails its fetch and is marked
/// visited; a served page is saved under its derived relative path, and an
/// HTML page additionally feeds its same-host references to the frontier.
pub open spec fn crawl_spec(
    queue: Seq<Seq<char>>,
    visited: Seq<Seq<char>>,
    rejected: Seq<Seq<char>>,
    excluded: Seq<Seq<char>>,
    site: Seq<(Seq<char>, Seq<char>, Seq<char>)>,
) -> Seq<Seq<char>>
    decreases count_unvisited(site, visited), queue.len(),
{
    if queue.len() == 0 {
        Seq::<Seq<char>>::empty()
    } else {
        let u = queue[0];
        let q1 = queue.drop_first();
        if visited.contains(u) {
            crawl_spec(q1, visited, rejected, excluded, site)
        } else {
            let v1 = visited.push(u);
            proof {
                lemma_count_monotone(site, visited, u);
            }
            if spec_should_exclude(rejected, excluded, u) {
                crawl_spec(q1, v1, rejected, excluded, site)
            } else {
                match spec_site_lookup(site, u) {
                    None => crawl_spec(q1, v1, rejected, excluded, site),
                    Some(page) => match path_of(u) {
                        None => crawl_spec(q1, v1, rejected, excluded, site),
                        Some(p) => {
                            if spec_classify(page.1) is Html {
                                proof {
                                    lemma_count_strict(site, visited, u);
                                }
                                seq![spec_relative_path(p)] + crawl_spec(
                                    q1 + spec_enqueued(spec_all_links(page.2), u),
                                    v1,
                                    rejected,
                                    excluded,
                                    site,
                                )
                            } else {
                                seq![spec_relative_path(p)] + crawl_spec(
                                    q1,
                                    v1,
                                    rejected,
                                    excluded,
                                    site,
                                )
                            }
                        },
                    },
                }
            }
        }
    }
}

/// Finds the first page of `site` served under `u`.
fn site_lookup<'a>(site: &'a Vec<SitePage>, u: &str) -> (r: Option<&'a SitePage>)
    ensures
        match spec_site_lookup(spec_site_view(site@), u@) {
            None => r is None,
            Some(t) => r matches Some(p) && p.url@ == t.0 && p.content_type@ == t.1 && p.body@
                == t.2,
        },
{
    let n: usize = site.len();
    let ghost sv = spec_site_view(site@);
    let mut i: usize = 0;
    proof {
        assert(sv.subrange(0, n as int) =~= sv);
    }
    while i < n
        invariant
            i <= n,
            n == site@.len(),
            sv == spec_site_view(site@),
            sv.len() == n,
            spec_site_lookup(sv, u@) == spec_site_lookup(sv.subrange(i as int, n as int), u@),
        decreases n - i,
    {
        if str_eq(site[i].url.as_str(), u) {
            proof {
                let tail = sv.subrange(i as int, n as int);
                assert(tail[0] == sv[i as int]);
                assert(sv[i as int].0 == site@[i as int].url@);
            }
            return Some(&site[i]);
        }
        proof {
            let tail = sv.subrange(i as int, n as int);
            assert(tail[0] == sv[i as int]);
            assert(sv[i as int].0 == site@[i as int].url@);
            assert(tail.drop_first() =~= sv.subrange(i + 1, n as int));
        }
        i = i + 1;
    }
    proof {
        assert(sv.subrange(n as int, n as int) =~= Seq::<(Seq<char>, Seq<char>, Seq<char>)>::empty());
    }
    None
}

/// Runs a whole mirror crawl against a site snapshot given as data and
/// returns the relative paths saved, in order.  The result is a pure
/// function of the seed, the policy and the snapshot — so re-running a
/// crawl with an empty visited set against an unchanged site yields the
/// same file set and relative paths.
pub fn run_crawl(
    seed: String,
    rejected_extensions: Vec<String>,
    excluded_paths: Vec<String>,
    convert_links: bool,
    site: &Vec<SitePage>,
) -> (r: Result<Vec<String>, FetchError>)
    ensures
        r is Ok <==> host_of(seed@) is Some,
        r matches Ok(saved) ==> saved.deep_view() =~= crawl_spec(
            seq![seed@],
            Seq::<Seq<char>>::empty(),
            rejected_extensions.deep_view(),
            excluded_paths.deep_view(),
            spec_site_view(site@),
        ),
{
    let ghost seed_v = seed@;
    let ghost rej = rejected_extensions.deep_view();
    let ghost exc = excluded_paths.deep_view();
    let ghost sv = spec_site_view(site@);
    let mut m = match WebsiteMirror::new(seed, rejected_extensions, excluded_paths, convert_links) {
        Ok(m) => m,
        Err(e) => {
            return Err(e);
        },
    };
    let mut saved: Vec<String> = Vec::new();
    proof {
        assert(saved.deep_view() =~= Seq::<Seq<char>>::empty());
        assert(m.visited.deep_view() =~= Seq::<Seq<char>>::empty());
        assert(saved.deep_view() + crawl_spec(m.queue.deep_view(), m.visited.deep_view(), rej, exc, sv)
            =~= crawl_spec(seq![seed_v], Seq::<Seq<char>>::empty(), rej, exc, sv));
    }
    loop
        invariant
            m.rejected_extensions.deep_view() == rej,
            m.excluded_paths.deep_view() == exc,
            sv == spec_site_view(site@),
            crawl_spec(seq![seed_v], Seq::<Seq<char>>::empty(), rej, exc, sv) =~= saved.deep_view()
                + crawl_spec(m.queue.deep_view(), m.visited.deep_view(), rej, exc, sv),
        ensures
            m.queue.deep_view().len() == 0,
            crawl_spec(seq![seed_v], Seq::<Seq<char>>::empty(), rej, exc, sv)
                =~= saved.deep_view() + crawl_spec(
                m.queue.deep_view(),
                m.visited.deep_view(),
                rej,
                exc,
                sv,
            ),
        decreases count_unvisited(sv, m.visited.deep_view()), m.queue@.len(),
    {
        let ghost q_pre = m.queue.deep_view();
        let ghost v_pre = m.visited.deep_view();
        let u = match m.pop_front() {
            Some(u) => u,
            None => {
                break ;
            },
        };
        let ghost uv = u@;
        proof {
            assert(uv == q_pre[0]);
            assert(m.queue.deep_view() =~= q_pre.drop_first());
        }
        if m.is_visited(u.as_str()) {
            continue ;
        }
        if m.should_exclude(u.as_str()) {
            m.mark_visited(u);
            proof {
                lemma_count_monotone(sv, v_pre, uv);
            }
            continue ;
        }
        match site_lookup(site, u.as_str()) {
            None => {
                m.mark_visited(u);
                proof {
                    lemma_count_monotone(sv, v_pre, uv);
                }
                continue ;
            },
            Some(page) => {
                match m.get_relative_path(u.as_str()) {
                    Err(_) => {
                        m.mark_visited(u);
                        proof {
                            lemma_count_monotone(sv, v_pre, uv);
                        }
                        continue ;
                    },
                    Ok(rel) => {
                        let ghost saved_pre = saved.deep_view();
                        let kind = classify_content(page.content_type.as_str());
                        let is_html = match kind {
                            ContentKind::Html => true,
                            _ => false,
                        };
                        if is_html {
                            let _rewritten = m.process_html(page.body.as_str(), u.as_str());
                        }
                        saved.push(rel);
                        m.mark_visited(u);
                        proof {
                            lemma_count_strict(sv, v_pre, uv);
                            assert(saved.deep_view() =~= saved_pre.push(crawl_rel(uv)));
                            assert(saved_pre.push(crawl_rel(uv)) =~= saved_pre + seq![crawl_rel(
                                uv,
                            )]);
                        }
                    },
                }
            },
        }
    }
    proof {
        assert(crawl_spec(m.queue.deep_view(), m.visited.deep_view(), rej, exc, sv)
            =~= Seq::<Seq<char>>::empty());
        assert(saved.deep_view() + Seq::<Seq<char>>::empty() =~= saved.deep_view());
    }
    Ok(saved)
}

/// The relative path a saved URL gets, as the crawl derives it.
pub open spec fn crawl_rel(u: Seq<char>) -> Seq<char> {
    match path_of(u) {
        Some(p) => spec_relative_path(p),
        None => Seq::<char>::empty(),
    }
}

} // verus!
