use vstd::prelude::*;

verus! {

/// glob's compiled pattern, carried opaquely.
#[verifier::external_type_specification]
#[verifier::external_body]
pub struct ExPattern(glob::Pattern);

/// glob's refusal of a pattern, carried opaquely.
#[verifier::external_type_specification]
#[verifier::external_body]
pub struct ExPatternError(glob::PatternError);

/// Whether glob accepts `pattern` as a shell-style pattern.
pub uninterp spec fn glob_parses(pattern: Seq<char>) -> bool;

/// Whether the shell-style `pattern` matches `text` under glob's default
/// match options.
pub uninterp spec fn glob_matches(pattern: Seq<char>, text: Seq<char>) -> bool;

/// Relies on glob::Pattern::new: it compiles `pattern`, or refuses it, as a
/// function of the text alone.
#[verifier::external_body]
fn compile(pattern: &str) -> (r: Result<glob::Pattern, glob::PatternError>)
    ensures
        r is Ok == glob_parses(pattern@),
{
    glob::Pattern::new(pattern)
}

/// Relies on glob::Pattern::matches: whether the compiled pattern matches
/// `text` with the default options. `g.pattern` is always compiled from
/// `g.text`, which only `Glob::new` sets.
#[verifier::external_body]
fn pattern_matches(g: &Glob, text: &str) -> (r: bool)
    ensures
        r == glob_matches(g.text@, text@),
{
    g.pattern.matches(text)
}

/// A shell-style pattern together with its text.
pub struct Glob {
    text: String,
    pattern: glob::Pattern,
}

impl Glob {
    pub closed spec fn view_text(&self) -> Seq<char> {
        self.text@
    }

    /// Compiles `text`; `None` when glob refuses it.
    pub fn new(text: &String) -> (r: Option<Glob>)
        ensures
            r is Some == glob_parses(text@),
            r matches Some(g) ==> g.view_text() == text@,
    {
        match compile(text.as_str()) {
            Ok(pattern) => Some(Glob { text: text.clone(), pattern }),
            Err(_) => None,
        }
    }

    pub fn matches(&self, text: &str) -> (r: bool)
        ensures
            r == glob_matches(self.view_text(), text@),
    {
        pattern_matches(self, text)
    }
}

/// Whether some pattern of `pats` matches `text`.
pub open spec fn any_matches(pats: Seq<Seq<char>>, text: Seq<char>) -> bool {
    exists|i: int| 0 <= i < pats.len() && glob_matches(#[trigger] pats[i], text)
}

/// Whether some entry of `hits` holds.
pub open spec fn any_hit(hits: Seq<bool>) -> bool {
    exists|i: int| 0 <= i < hits.len() && #[trigger] hits[i]
}

/// The rule of the manifest's file lists: a file is kept when a listed
/// pattern matches it, or when there are no listed patterns and no exclude
/// pattern matches it. `listed_hits` and `exclude_hits` say which patterns
/// of each list match the file.
pub fn kept_by(listed_hits: &Vec<bool>, exclude_hits: &Vec<bool>) -> (r: bool)
    ensures
        r == (any_hit(listed_hits@) || (listed_hits@.len() == 0 && !any_hit(exclude_hits@))),
{
    let inc = any_true(listed_hits);
    if inc {
        return true;
    }
    listed_hits.len() == 0 && !any_true(exclude_hits)
}

fn any_true(hits: &Vec<bool>) -> (r: bool)
    ensures
        r == any_hit(hits@),
{
    let mut i: usize = 0;
    while i < hits.len()
        invariant
            i <= hits.len(),
            forall|j: int| 0 <= j < i ==> !#[trigger] hits@[j],
        decreases hits.len() - i,
    {
        if hits[i] {
            return true;
        }
        i = i + 1;
    }
    false
}

/// The file lists of a package manifest: the patterns it lists and those it excludes.
pub struct FileFilter {
    listed: Vec<Glob>,
    exclude: Vec<Glob>,
}

/// The texts of a list of patterns.
pub open spec fn texts(gs: Seq<Glob>) -> Seq<Seq<char>> {
    gs.map_values(|g: Glob| g.view_text())
}

/// The texts of a list of strings.
pub open spec fn string_texts(ss: Seq<String>) -> Seq<Seq<char>> {
    ss.map_values(|s: String| s@)
}

/// Whether glob accepts every pattern of `ps`.
pub open spec fn all_parse(ps: Seq<Seq<char>>) -> bool {
    forall|i: int| 0 <= i < ps.len() ==> glob_parses(#[trigger] ps[i])
}

fn compile_all(ps: &Vec<String>) -> (r: Option<Vec<Glob>>)
    ensures
        r is Some == all_parse(string_texts(ps@)),
        r matches Some(gs) ==> texts(gs@) == string_texts(ps@),
{
    let ghost sv = string_texts(ps@);
    let mut out: Vec<Glob> = Vec::new();
    let mut i: usize = 0;
    while i < ps.len()
        invariant
            i <= ps.len(),
            sv == string_texts(ps@),
            texts(out@) =~= sv.subrange(0, i as int),
            forall|j: int| 0 <= j < i ==> glob_parses(#[trigger] sv[j]),
        decreases ps.len() - i,
    {
        match Glob::new(&ps[i]) {
            None => {
                assert(!glob_parses(sv[i as int]));
                return None;
            },
            Some(g) => {
                let ghost before = out@;
                out.push(g);
                proof {
                    assert(texts(out@) =~= texts(before).push(sv[i as int]));
                    assert(sv.subrange(0, i + 1) =~= sv.subrange(0, i as int).push(sv[i as int]));
                }
            },
        }
        i = i + 1;
    }
    assert(texts(out@) =~= sv);
    Some(out)
}

impl FileFilter {
    pub closed spec fn listed_view(&self) -> Seq<Seq<char>> {
        texts(self.listed@)
    }

    pub closed spec fn exclude_view(&self) -> Seq<Seq<char>> {
        texts(self.exclude@)
    }

    /// Compiles the manifest's patterns; `None` when glob refuses one.
    pub fn new(listed: &Vec<String>, exclude: &Vec<String>) -> (r: Option<FileFilter>)
        ensures
            r is Some == (all_parse(string_texts(listed@)) && all_parse(string_texts(exclude@))),
            r matches Some(f) ==> f.listed_view() == string_texts(listed@) && f.exclude_view()
                == string_texts(exclude@),
    {
        let inc = compile_all(listed)?;
        let exc = compile_all(exclude)?;
        Some(FileFilter { listed: inc, exclude: exc })
    }

    fn hits(gs: &Vec<Glob>, path: &str) -> (r: Vec<bool>)
        ensures
            r@.len() == gs@.len(),
            forall|i: int| 0 <= i < r@.len() ==> r@[i] == glob_matches(#[trigger] texts(gs@)[i], path@),
    {
        let mut out: Vec<bool> = Vec::new();
        let mut i: usize = 0;
        while i < gs.len()
            invariant
                i <= gs.len(),
                out@.len() == i,
                forall|j: int| 0 <= j < i ==> out@[j] == glob_matches(#[trigger] texts(gs@)[j], path@),
            decreases gs.len() - i,
        {
            out.push(gs[i].matches(path));
            i = i + 1;
        }
        out
    }

    /// Whether the file at `path`, relative to the package root, is part of
    /// the package.
    pub fn keeps(&self, path: &str) -> (r: bool)
        ensures
            r == (any_matches(self.listed_view(), path@) || (self.listed_view().len() == 0
                && !any_matches(self.exclude_view(), path@))),
    {
        let ih = FileFilter::hits(&self.listed, path);
        let eh = FileFilter::hits(&self.exclude, path);
        proof {
            if any_hit(ih@) {
                let i = choose|i: int| 0 <= i < ih@.len() && #[trigger] ih@[i];
                assert(glob_matches(self.listed_view()[i], path@));
            }
            if any_matches(self.listed_view(), path@) {
                let i = choose|i: int| 0 <= i < self.listed_view().len() && glob_matches(#[trigger] self.listed_view()[i], path@);
                assert(ih@[i]);
            }
            if any_hit(eh@) {
                let i = choose|i: int| 0 <= i < eh@.len() && #[trigger] eh@[i];
                assert(glob_matches(self.exclude_view()[i], path@));
            }
            if any_matches(self.exclude_view(), path@) {
                let i = choose|i: int| 0 <= i < self.exclude_view().len() && glob_matches(#[trigger] self.exclude_view()[i], path@);
                assert(eh@[i]);
            }
        }
        kept_by(&ih, &eh)
    }
}

} // verus!
