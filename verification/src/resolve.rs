use crate::util::{
    add_suffix_before_extension, extract_filename_from_url, push_char, spec_add_suffix,
    spec_decimal, spec_filename_from_url, str_eq, u64_to_decimal,
};
use vstd::prelude::*;
use vstd::string::*;

verus! {

/// The base file name of a target: the explicit output name when one was
/// given, else the last segment of the URL.
pub open spec fn spec_base_name(output: Option<Seq<char>>, url: Seq<char>) -> Seq<char> {
    match output {
        Some(name) => name,
        None => spec_filename_from_url(url),
    }
}

/// The `k`-th candidate name for a target: the base name itself for
/// `k == 0`, and the base name with `_k` spliced in before its extension
/// for every further try.
pub open spec fn spec_candidate_name(output: Option<Seq<char>>, url: Seq<char>, k: int) -> Seq<
    char,
> {
    if k == 0 {
        spec_base_name(output, url)
    } else {
        spec_add_suffix(spec_base_name(output, url), seq!['_'] + spec_decimal(k))
    }
}

/// Builds the `k`-th candidate file name for a target.
pub fn candidate_name(output: &Option<String>, url: &str, k: u64) -> (r: String)
    ensures
        r@ == spec_candidate_name(
            match output {
                Some(o) => Some(o@),
                None => None,
            },
            url@,
            k as int,
        ),
{
    let base = match output {
        Some(o) => o.clone(),
        None => extract_filename_from_url(url),
    };
    if k == 0 {
        base
    } else {
        let mut suffix = String::new();
        push_char(&mut suffix, '_');
        let digits = u64_to_decimal(k);
        suffix.append(digits.as_str());
        proof {
            assert(suffix@ =~= seq!['_'] + spec_decimal(k as int));
        }
        add_suffix_before_extension(base.as_str(), suffix.as_str())
    }
}

/// Whether one of the strings in `v` reads `s`.
pub fn vec_contains_string(v: &Vec<String>, s: &str) -> (r: bool)
    ensures
        r == v.deep_view().contains(s@),
{
    let n: usize = v.len();
    let mut i: usize = 0;
    while i < n
        invariant
            i <= n,
            n == v.len(),
            forall|j: int| 0 <= j < i ==> v.deep_view()[j] != s@,
        decreases n - i,
    {
        if str_eq(v[i].as_str(), s) {
            proof {
                assert(v.deep_view()[i as int] == s@);
            }
            return true;
        }
        i = i + 1;
    }
    proof {
        if v.deep_view().contains(s@) {
            let j = choose|j: int| 0 <= j < v.deep_view().len() && v.deep_view()[j] == s@;
        }
    }
    false
}

/// The first candidate name, counting up from `k`, that is not among
/// `taken`; when `fuel` collisions have been passed the last candidate is
/// kept regardless.
pub open spec fn spec_resolve_name(
    taken: Seq<Seq<char>>,
    output: Option<Seq<char>>,
    url: Seq<char>,
    k: int,
    fuel: nat,
) -> Seq<char>
    decreases fuel,
{
    let c = spec_candidate_name(output, url, k);
    if !taken.contains(c) || fuel == 0 {
        c
    } else {
        spec_resolve_name(taken, output, url, k + 1, (fuel - 1) as nat)
    }
}

/// Picks a destination file name that does not collide with any name in
/// `taken`: the base name when it is free, else the first free suffixed
/// variant `name_1`, `name_2`, ...  Whenever any of the first
/// `taken.len() + 1` candidates is free — and with distinct candidate
/// names one always is — the returned name is free.
pub fn resolve_name(taken: &Vec<String>, output: &Option<String>, url: &str) -> (r: String)
    ensures
        ({
            let out = match output {
                Some(o) => Some(o@),
                None => None,
            };
            &&& r@ == spec_resolve_name(taken.deep_view(), out, url@, 0, taken@.len() as nat)
            &&& (exists|k: int|
                0 <= k <= taken@.len() && !taken.deep_view().contains(
                    #[trigger] spec_candidate_name(out, url@, k),
                )) ==> !taken.deep_view().contains(r@)
        }),
{
    let ghost out = match output {
        Some(o) => Some(o@),
        None => None,
    };
    let n: usize = taken.len();
    let mut k: usize = 0;
    loop
        invariant
            k <= n,
            n == taken@.len(),
            out == (match output {
                Some(o) => Some(o@),
                None => None,
            }),
            spec_resolve_name(taken.deep_view(), out, url@, 0, n as nat) == spec_resolve_name(
                taken.deep_view(),
                out,
                url@,
                k as int,
                (n - k) as nat,
            ),
            forall|j: int|
                0 <= j < k ==> taken.deep_view().contains(
                    #[trigger] spec_candidate_name(out, url@, j),
                ),
        decreases n - k,
    {
        let cand = candidate_name(output, url, k as u64);
        if !vec_contains_string(taken, cand.as_str()) {
            return cand;
        }
        if k == n {
            // every probed candidate collided; the fuel is spent and the
            // last one is kept
            return cand;
        }
        k = k + 1;
    }
}

/// `dir` and `name` joined with a single `/`: an absolute `name` stands
/// alone, an empty `dir` adds nothing, and a `dir` that already ends in
/// `/` gets no second one.
pub open spec fn spec_join_path(dir: Seq<char>, name: Seq<char>) -> Seq<char> {
    if dir.len() == 0 {
        name
    } else if name.len() > 0 && name[0] == '/' {
        name
    } else if dir[dir.len() - 1] == '/' {
        dir + name
    } else {
        dir + seq!['/'] + name
    }
}

/// Joins a destination directory and a file name into one path.
pub fn join_path(dir: &str, name: &str) -> (r: String)
    ensures
        r@ == spec_join_path(dir@, name@),
{
    let dn: usize = dir.unicode_len();
    let nn: usize = name.unicode_len();
    if dn == 0 {
        return String::from_str(name);
    }
    if nn > 0 && name.get_char(0) == '/' {
        return String::from_str(name);
    }
    let mut out = String::from_str(dir);
    if dir.get_char(dn - 1) != '/' {
        push_char(&mut out, '/');
    }
    out.append(name);
    proof {
        assert(out@ =~= spec_join_path(dir@, name@));
    }
    out
}

/// A path whose first component is exactly `~` (the path `~` itself, or
/// one starting `~/`) expands to the home directory followed by the rest
/// of the path; everything else is left alone, as is every path when no
/// home directory is known.
pub open spec fn spec_expand_home(path: Seq<char>, home: Option<Seq<char>>) -> Seq<char> {
    match home {
        Some(h) => {
            if path.len() > 0 && path[0] == '~' && (path.len() == 1 || path[1] == '/') {
                h + seq!['/'] + path.drop_first()
            } else {
                path
            }
        },
        None => path,
    }
}

/// Expands a leading `~` path component into the home directory the
/// caller looked up; with no home directory the path is returned as is.
pub fn expand_home(path: &str, home: &Option<String>) -> (r: String)
    ensures
        r@ == spec_expand_home(
            path@,
            match home {
                Some(h) => Some(h@),
                None => None,
            },
        ),
{
    let h = match home {
        Some(h) => h,
        None => {
            return String::from_str(path);
        },
    };
    let n: usize = path.unicode_len();
    if n > 0 && path.get_char(0) == '~' && (n == 1 || path.get_char(1) == '/') {
        let mut out = h.clone();
        push_char(&mut out, '/');
        out.append(path.substring_char(1, n));
        proof {
            assert(path@.subrange(1, n as int) =~= path@.drop_first());
        }
        out
    } else {
        String::from_str(path)
    }
}

} // verus!
