use vstd::prelude::*;
use vstd::string::*;

verus! {

/// ASCII whitespace, the characters stripped from the ends of a
/// comma-separated piece or of a line read from a URL list file.
pub open spec fn is_space(c: char) -> bool {
    c == ' ' || c == '\t' || c == '\n' || c == '\r'
}

fn is_space_exec(c: char) -> (r: bool)
    ensures
        r == is_space(c),
{
    c == ' ' || c == '\t' || c == '\n' || c == '\r'
}

/// `s` with its leading whitespace removed.
pub open spec fn spec_trim_start(s: Seq<char>) -> Seq<char>
    decreases s.len(),
{
    if s.len() > 0 && is_space(s[0]) {
        spec_trim_start(s.drop_first())
    } else {
        s
    }
}

/// `s` with its trailing whitespace removed.
pub open spec fn spec_trim_end(s: Seq<char>) -> Seq<char>
    decreases s.len(),
{
    if s.len() > 0 && is_space(s[s.len() - 1]) {
        spec_trim_end(s.drop_last())
    } else {
        s
    }
}

/// `s` with whitespace removed from both ends.
pub open spec fn spec_trim(s: Seq<char>) -> Seq<char> {
    spec_trim_end(spec_trim_start(s))
}

proof fn lemma_trim_start_subrange(s: Seq<char>, i: int)
    requires
        0 <= i <= s.len(),
        forall|j: int| 0 <= j < i ==> is_space(s[j]),
    ensures
        spec_trim_start(s) == spec_trim_start(s.subrange(i, s.len() as int)),
    decreases i,
{
    if i > 0 {
        assert(s.subrange(0, s.len() as int) =~= s);
        let t = s.subrange(i - 1, s.len() as int);
        assert(t[0] == s[i - 1]);
        assert(t.drop_first() =~= s.subrange(i, s.len() as int));
        lemma_trim_start_subrange(s, i - 1);
    } else {
        assert(s.subrange(0, s.len() as int) =~= s);
    }
}

proof fn lemma_trim_end_subrange(s: Seq<char>, i: int)
    requires
        0 <= i <= s.len(),
        forall|j: int| i <= j < s.len() ==> is_space(s[j]),
    ensures
        spec_trim_end(s) == spec_trim_end(s.subrange(0, i)),
    decreases s.len() - i,
{
    if i < s.len() {
        let t = s.subrange(0, i + 1);
        assert(t[t.len() - 1] == s[i]);
        assert(t.drop_last() =~= s.subrange(0, i));
        lemma_trim_end_subrange(s, i + 1);
        assert(s.subrange(0, s.len() as int) =~= s);
    } else {
        assert(s.subrange(0, s.len() as int) =~= s);
    }
}

/// Removes ASCII whitespace from both ends of `s`.
pub fn trim(s: &str) -> (r: String)
    ensures
        r@ == spec_trim(s@),
{
    let n: usize = s.unicode_len();
    let mut a: usize = 0;
    while a < n && is_space_exec(s.get_char(a))
        invariant
            a <= n,
            n == s@.len(),
            forall|j: int| 0 <= j < a ==> is_space(s@[j]),
        decreases n - a,
    {
        a = a + 1;
    }
    proof {
        lemma_trim_start_subrange(s@, a as int);
    }
    if a == n {
        proof {
            assert(s@.subrange(a as int, n as int) =~= Seq::<char>::empty());
        }
        return String::new();
    }
    let mut b: usize = n;
    while b > a && is_space_exec(s.get_char(b - 1))
        invariant
            a <= b <= n,
            n == s@.len(),
            forall|j: int| b <= j < n ==> is_space(s@[j]),
        decreases b,
    {
        b = b - 1;
    }
    proof {
        let head = s@.subrange(a as int, n as int);
        // the first non-space position bounds the start-trim; the last
        // non-space position bounds the end-trim of what is left
        assert(!is_space(s@[a as int]));
        assert(head[0] == s@[a as int]);
        assert(spec_trim_start(s@) == head);
        assert forall|j: int| (b - a) <= j < head.len() implies is_space(head[j]) by {
            assert(head[j] == s@[j + a]);
        }
        lemma_trim_end_subrange(head, b - a);
        assert(head.subrange(0, b - a) =~= s@.subrange(a as int, b as int));
        if b > a {
            let mid = s@.subrange(a as int, b as int);
            assert(mid[mid.len() - 1] == s@[b - 1]);
            assert(!is_space(mid[mid.len() - 1]));
            assert(spec_trim_end(mid) == mid);
        } else {
            assert(s@.subrange(a as int, b as int) =~= Seq::<char>::empty());
        }
    }
    String::from_str(s.substring_char(a, b))
}

/// Index of the first occurrence of `c` in `s`, or `-1` when `c` does not
/// occur.
pub open spec fn first_index_of(s: Seq<char>, c: char) -> int
    decreases s.len(),
{
    if s.len() == 0 {
        -1
    } else if s[0] == c {
        0
    } else {
        let r = first_index_of(s.drop_first(), c);
        if r == -1 {
            -1
        } else {
            r + 1
        }
    }
}

pub proof fn lemma_first_index_of_bounds(s: Seq<char>, c: char)
    ensures
        -1 <= first_index_of(s, c) < s.len(),
        first_index_of(s, c) >= 0 ==> s[first_index_of(s, c)] == c,
        forall|j: int|
            0 <= j < s.len() && (first_index_of(s, c) == -1 || j < first_index_of(s, c)) ==> s[j]
                != c,
    decreases s.len(),
{
    if s.len() > 0 && s[0] != c {
        lemma_first_index_of_bounds(s.drop_first(), c);
        assert forall|j: int|
            0 <= j < s.len() && (first_index_of(s, c) == -1 || j < first_index_of(s, c)) implies s[j]
            != c by {
            if j > 0 {
                assert(s.drop_first()[j - 1] == s[j]);
            }
        }
    }
}

/// Finds the first occurrence of `c` in `s` at or after position `from`.
pub fn find_char_from(s: &str, c: char, from: usize) -> (r: Option<usize>)
    requires
        from <= s@.len(),
    ensures
        ({
            let tail = s@.subrange(from as int, s@.len() as int);
            match r {
                Some(i) => from <= i < s@.len() && i - from == first_index_of(tail, c),
                None => first_index_of(tail, c) == -1,
            }
        }),
{
    let n: usize = s.unicode_len();
    let mut i: usize = from;
    while i < n
        invariant
            from <= i <= n,
            n == s@.len(),
            forall|j: int| from <= j < i ==> s@[j] != c,
        decreases n - i,
    {
        if s.get_char(i) == c {
            proof {
                let tail = s@.subrange(from as int, n as int);
                lemma_first_index_of_bounds(tail, c);
                assert(tail[i - from] == c);
                assert forall|j: int| 0 <= j < i - from implies tail[j] != c by {
                    assert(tail[j] == s@[j + from]);
                }
                if first_index_of(tail, c) < i - from {
                    assert(tail[first_index_of(tail, c)] == c);
                }
            }
            return Some(i);
        }
        i = i + 1;
    }
    proof {
        let tail = s@.subrange(from as int, n as int);
        lemma_first_index_of_bounds(tail, c);
        if first_index_of(tail, c) >= 0 {
            assert(tail[first_index_of(tail, c)] == c);
            assert(s@[first_index_of(tail, c) + from] == c);
        }
    }
    None
}

/// The pieces of `s` between occurrences of `sep`, in order; splitting the
/// empty string yields one empty piece, as `str::split` does.
pub open spec fn spec_split(s: Seq<char>, sep: char) -> Seq<Seq<char>>
    decreases s.len(),
{
    let i = first_index_of(s, sep);
    if 0 <= i < s.len() {
        seq![s.subrange(0, i)] + spec_split(s.subrange(i + 1, s.len() as int), sep)
    } else {
        seq![s]
    }
}

/// Each piece of `s` between commas, trimmed of surrounding whitespace.
pub open spec fn spec_csv_items(s: Seq<char>) -> Seq<Seq<char>> {
    spec_split(s, ',').map_values(|p: Seq<char>| spec_trim(p))
}

/// Splits a comma-separated option value into its trimmed pieces.
pub fn split_csv(s: &str) -> (r: Vec<String>)
    ensures
        r.deep_view() == spec_csv_items(s@),
{
    let n: usize = s.unicode_len();
    let mut out: Vec<String> = Vec::new();
    let mut pos: usize = 0;
    proof {
        assert(s@.subrange(0, n as int) =~= s@);
    }
    loop
        invariant
            pos <= n,
            n == s@.len(),
            spec_csv_items(s@) =~= out.deep_view() + spec_split(
                s@.subrange(pos as int, n as int),
                ',',
            ).map_values(|p: Seq<char>| spec_trim(p)),
        decreases n - pos,
    {
        let ghost tail = s@.subrange(pos as int, n as int);
        match find_char_from(s, ',', pos) {
            Some(j) => {
                let piece = trim(s.substring_char(pos, j));
                out.push(piece);
                proof {
                    lemma_first_index_of_bounds(tail, ',');
                    assert(tail.subrange(0, j - pos) =~= s@.subrange(pos as int, j as int));
                    assert(tail.subrange(j - pos + 1, tail.len() as int) =~= s@.subrange(
                        j + 1,
                        n as int,
                    ));
                }
                pos = j + 1;
            },
            None => {
                let piece = trim(s.substring_char(pos, n));
                out.push(piece);
                proof {
                    assert(tail.subrange(0, tail.len() as int) =~= tail);
                }
                return out;
            },
        }
    }
}

/// The URLs a list file yields: each line trimmed of surrounding
/// whitespace, with blank lines dropped.
pub open spec fn spec_url_lines(lines: Seq<Seq<char>>) -> Seq<Seq<char>>
    decreases lines.len(),
{
    if lines.len() == 0 {
        Seq::<Seq<char>>::empty()
    } else {
        let t = spec_trim(lines[0]);
        (if t.len() > 0 {
            seq![t]
        } else {
            Seq::<Seq<char>>::empty()
        }) + spec_url_lines(lines.drop_first())
    }
}

proof fn lemma_url_lines_concat(a: Seq<Seq<char>>, b: Seq<Seq<char>>)
    ensures
        spec_url_lines(a + b) =~= spec_url_lines(a) + spec_url_lines(b),
    decreases a.len(),
{
    if a.len() == 0 {
        assert(a + b =~= b);
        assert(spec_url_lines(a) =~= Seq::<Seq<char>>::empty());
    } else {
        assert((a + b)[0] == a[0]);
        assert((a + b).drop_first() =~= a.drop_first() + b);
        lemma_url_lines_concat(a.drop_first(), b);
    }
}

/// Turns the lines of a URL list file into the URLs to fetch: each line
/// is trimmed, and blank lines are ignored.
pub fn filter_url_lines(lines: &Vec<String>) -> (r: Vec<String>)
    ensures
        r.deep_view() =~= spec_url_lines(lines.deep_view()),
{
    let n: usize = lines.len();
    let mut out: Vec<String> = Vec::new();
    let mut i: usize = 0;
    proof {
        assert(lines.deep_view().subrange(0, 0) =~= Seq::<Seq<char>>::empty());
        assert(out.deep_view() =~= spec_url_lines(lines.deep_view().subrange(0, 0)));
    }
    while i < n
        invariant
            i <= n,
            n == lines@.len(),
            out.deep_view() =~= spec_url_lines(lines.deep_view().subrange(0, i as int)),
        decreases n - i,
    {
        let ghost done = lines.deep_view().subrange(0, i as int);
        let ghost line_v = lines.deep_view()[i as int];
        let t = trim(lines[i].as_str());
        let tn: usize = t.as_str().unicode_len();
        let ghost out_pre = out.deep_view();
        if tn > 0 {
            out.push(t);
        }
        proof {
            assert(lines.deep_view()[i as int] == lines@[i as int]@);
            let next = lines.deep_view().subrange(0, i + 1);
            assert(done + seq![line_v] =~= next);
            lemma_url_lines_concat(done, seq![line_v]);
            assert(seq![line_v][0] == line_v);
            assert(seq![line_v].drop_first() =~= Seq::<Seq<char>>::empty());
            assert(spec_url_lines(seq![line_v].drop_first()) =~= Seq::<Seq<char>>::empty());
            if spec_trim(line_v).len() > 0 {
                assert(out.deep_view() =~= out_pre.push(spec_trim(line_v)));
                assert(out_pre.push(spec_trim(line_v)) =~= out_pre + seq![spec_trim(line_v)]);
                assert(spec_url_lines(seq![line_v]) =~= seq![spec_trim(line_v)]);
            } else {
                assert(spec_url_lines(seq![line_v]) =~= Seq::<Seq<char>>::empty());
            }
        }
        i = i + 1;
    }
    proof {
        assert(lines.deep_view().subrange(0, n as int) =~= lines.deep_view());
    }
    out
}

/// The run options the command line supplies: the URLs to fetch and the
/// flags that steer naming, placement, throttling and mirroring.
#[derive(Clone, Debug)]
pub struct Args {
    pub urls: Vec<String>,
    pub input_file: Option<String>,
    pub output: Option<String>,
    pub path: Option<String>,
    pub background: bool,
    pub rate_limit: Option<String>,
    pub mirror: bool,
    pub reject: Option<String>,
    pub exclude: Option<String>,
    pub convert_links: bool,
}

impl Args {
    /// The file extensions the mirror must skip, from the comma-separated
    /// reject option; empty when the option is absent.
    pub fn get_rejected_extensions(&self) -> (r: Vec<String>)
        ensures
            r.deep_view() == match self.reject {
                Some(v) => spec_csv_items(v@),
                None => Seq::<Seq<char>>::empty(),
            },
    {
        match &self.reject {
            Some(v) => split_csv(v.as_str()),
            None => Vec::new(),
        }
    }

    /// The path prefixes the mirror must skip, from the comma-separated
    /// exclude option; empty when the option is absent.
    pub fn get_excluded_paths(&self) -> (r: Vec<String>)
        ensures
            r.deep_view() == match self.exclude {
                Some(v) => spec_csv_items(v@),
                None => Seq::<Seq<char>>::empty(),
            },
    {
        match &self.exclude {
            Some(v) => split_csv(v.as_str()),
            None => Vec::new(),
        }
    }

    /// A run needs at least one URL, given directly or through an input
    /// file; anything else is refused with the usage message.
    pub fn validate(&self) -> (r: Result<(), String>)
        ensures
            r is Err <==> (self.urls@.len() == 0 && self.input_file is None),
            r matches Err(m) ==> m@
                == "wget: missing URL\nUsage: wget [OPTION]... [URL]...\n\nTry `wget --help` for more options."@,
    {
        if self.urls.len() == 0 && self.input_file.is_none() {
            Err(
                String::from_str(
                    "wget: missing URL\nUsage: wget [OPTION]... [URL]...\n\nTry `wget --help` for more options.",
                ),
            )
        } else {
            Ok(())
        }
    }
}

} // verus!
