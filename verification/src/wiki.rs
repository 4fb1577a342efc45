//! Wiki pages compiled from a structured analysis of one source: slugs,
//! YAML frontmatter, wikilinks, page bodies and the wiki index.

use vstd::prelude::*;

use crate::hashing::{hash_text, hex_lower, is_hex_char, lemma_hex_chars, sha256, text_hash};
use crate::text::{
    contains, lemma_views_push, matches_at, starts_with,
    chars_eq, chars_of, contains_string, decimal, is_whitespace, is_ws, lemma_decimal_digits,
    lemma_decimal_injective, push_all, push_decimal, push_str, slice, string_from, string_of,
    string_views, to_lowercase, unicode_lowercase, views,
};

verus! {

broadcast use vstd::seq::group_seq_axioms;

// ---------------------------------------------------------------------------
// Data
// ---------------------------------------------------------------------------

#[derive(Debug, Clone, PartialEq, Eq)]
pub struct WikiAnalysis {
    pub summary: String,
    pub entities: Vec<WikiEntity>,
    pub concepts: Vec<WikiConcept>,
}

#[derive(Debug, Clone, PartialEq, Eq)]
pub struct WikiEntity {
    pub name: String,
    pub blurb: String,
}

#[derive(Debug, Clone, PartialEq, Eq)]
pub struct WikiConcept {
    pub name: String,
    pub blurb: String,
}

#[derive(Debug, Clone, PartialEq, Eq)]
pub struct WikiPageDraft {
    pub slug: String,
    pub title: String,
    pub page_type: WikiPageType,
    pub body_markdown: String,
    pub source_uris: Vec<String>,
}

#[derive(Debug, Clone, PartialEq, Eq)]
pub struct WikiCompileResult {
    pub pages: Vec<WikiPageDraft>,
    pub index_markdown: String,
}

#[derive(Debug, Clone, Copy, PartialEq, Eq, Structural)]
pub enum WikiPageType {
    SourceSummary,
    Entity,
    Concept,
}

/// Compact outcome of a wiki compile.
#[derive(Debug, Clone)]
pub struct WikiCompileSummary {
    pub wiki_root: String,
    pub pages_written: usize,
    pub created: usize,
    pub updated: usize,
    pub skipped_user_edit: usize,
    pub cleaned: usize,
}

impl WikiPageType {
    /// The name of the page type (`source_summary`, `entity`, `concept`).
    pub open spec fn kind_label(self) -> Seq<char> {
        match self {
            WikiPageType::SourceSummary => "source_summary"@,
            WikiPageType::Entity => "entity"@,
            WikiPageType::Concept => "concept"@,
        }
    }

    pub fn as_str(self) -> (r: &'static str)
        ensures
            r@ == self.kind_label(),
    {
        match self {
            WikiPageType::SourceSummary => "source_summary",
            WikiPageType::Entity => "entity",
            WikiPageType::Concept => "concept",
        }
    }
}

// ---------------------------------------------------------------------------
// Slugs
// ---------------------------------------------------------------------------

pub open spec fn is_slug_keep(c: char) -> bool {
    ('a' <= c && c <= 'z') || ('0' <= c && c <= '9')
}

pub open spec fn is_slug_sep(c: char) -> bool {
    is_ws(c) || c == '-' || c == '_'
}

/// Keeps `[a-z0-9]`; a run of separators (whitespace, `-`, `_`) after some
/// kept text becomes one `-`; everything else is dropped.
pub open spec fn slug_scan(cs: Seq<char>) -> Seq<char>
    decreases cs.len(),
{
    if cs.len() == 0 {
        Seq::empty()
    } else {
        let out = slug_scan(cs.drop_last());
        let c = cs.last();
        if is_slug_keep(c) {
            out.push(c)
        } else if is_slug_sep(c) {
            if out.len() > 0 && out.last() != '-' {
                out.push('-')
            } else {
                out
            }
        } else {
            out
        }
    }
}

pub open spec fn trim_dash_start(s: Seq<char>) -> Seq<char>
    decreases s.len(),
{
    if s.len() > 0 && s[0] == '-' {
        trim_dash_start(s.drop_first())
    } else {
        s
    }
}

pub open spec fn trim_dash_end(s: Seq<char>) -> Seq<char>
    decreases s.len(),
{
    if s.len() > 0 && s.last() == '-' {
        trim_dash_end(s.drop_last())
    } else {
        s
    }
}

/// The first 6 hex digits of the SHA-256 of `name`.
pub open spec fn hash6(name: Seq<char>) -> Seq<char> {
    text_hash(name).take(6)
}

/// The slug of a name: its lowercase form reduced to `[a-z0-9-]` words, or
/// `e-` and a short hash when nothing is left.
pub open spec fn slug_of(name: Seq<char>) -> Seq<char> {
    let t = trim_dash_end(trim_dash_start(slug_scan(unicode_lowercase(name))));
    if t.len() == 0 {
        seq!['e', '-'] + hash6(name)
    } else {
        t
    }
}

fn trim_dashes(s: &Vec<char>) -> (r: Vec<char>)
    ensures
        r@ == trim_dash_end(trim_dash_start(s@)),
{
    let mut a: usize = 0;
    let n = s.len();
    assert(s@.subrange(0, n as int) =~= s@);
    while a < n && s[a] == '-'
        invariant
            a <= n == s@.len(),
            trim_dash_start(s@) == trim_dash_start(s@.subrange(a as int, n as int)),
        decreases n - a,
    {
        assert(s@.subrange(a as int, n as int).drop_first() =~= s@.subrange(a + 1, n as int));
        a = a + 1;
    }
    if a == 0 {
        assert(s@.subrange(0, n as int) =~= s@);
    }
    let mut b: usize = n;
    while b > a && s[b - 1] == '-'
        invariant
            a <= b <= n == s@.len(),
            trim_dash_start(s@) == s@.subrange(a as int, n as int),
            trim_dash_end(trim_dash_start(s@)) == trim_dash_end(s@.subrange(a as int, b as int)),
        decreases b - a,
    {
        assert(s@.subrange(a as int, b as int).drop_last() =~= s@.subrange(a as int, b - 1));
        b = b - 1;
    }
    slice(s, a, b)
}

/// Slug of a name: lowercase ASCII letters and digits joined by `-`, or
/// `e-` plus six hex digits of the name's SHA-256 when no such character is
/// left (as for CJK names).
pub fn slugify(name: &str) -> (r: String)
    ensures
        r@ == slug_of(name@),
        path_safe_slug(r@),
{
    let lower = to_lowercase(name);
    let cs = chars_of(lower.as_str());
    let mut out: Vec<char> = Vec::new();
    let mut i: usize = 0;
    while i < cs.len()
        invariant
            i <= cs@.len(),
            out@ == slug_scan(cs@.take(i as int)),
        decreases cs.len() - i,
    {
        let ch = cs[i];
        assert(cs@.take(i + 1).drop_last() =~= cs@.take(i as int));
        if ('a' <= ch && ch <= 'z') || ('0' <= ch && ch <= '9') {
            out.push(ch);
        } else if is_whitespace(ch) || ch == '-' || ch == '_' {
            if out.len() > 0 && out[out.len() - 1] != '-' {
                out.push('-');
            }
        }
        i = i + 1;
    }
    assert(cs@.take(cs@.len() as int) =~= cs@);
    let t = trim_dashes(&out);
    if t.len() == 0 {
        let h = hash_text(name);
        let hc = chars_of(h.as_str());
        let mut r: Vec<char> = Vec::new();
        r.push('e');
        r.push('-');
        let six = slice(&hc, 0, 6);
        push_all(&mut r, &six);
        assert(r@ =~= seq!['e', '-'] + hash6(name@));
        proof {
            lemma_hex_chars(sha256(vstd::utf8::encode_utf8(name@)));
            assert forall|i: int| 0 <= i < r@.len() implies slug_char(#[trigger] r@[i]) by {
                if i >= 2 {
                    assert(r@[i] == hc@[i - 2]);
                    assert(is_hex_char(hc@[i - 2]));
                }
            }
            assert(is_hex_char(hc@[5]));
        }
        string_of(&r)
    } else {
        proof {
            lemma_scan_chars(cs@);
            lemma_trim_dash_start(out@);
            lemma_trim_dash_end(trim_dash_start(out@));
        }
        string_of(&t)
    }
}

/// `base-n`: a numbered variant of a slug.
pub open spec fn candidate(base: Seq<char>, n: nat) -> Seq<char> {
    base + seq!['-'] + decimal(n)
}

/// The least `n >= 2` whose numbered variant is not taken.
pub open spec fn first_free(base: Seq<char>, used: Set<Seq<char>>) -> nat {
    choose|n: nat|
        2 <= n && !used.contains(candidate(base, n)) && forall|m: nat|
            2 <= m < n ==> used.contains(#[trigger] candidate(base, m))
}

/// `base` when it is free, else its first free numbered variant.
pub open spec fn uniquified(base: Seq<char>, used: Set<Seq<char>>) -> Seq<char> {
    if !used.contains(base) {
        base
    } else {
        candidate(base, first_free(base, used))
    }
}

proof fn lemma_candidate_injective(base: Seq<char>, a: nat, b: nat)
    requires
        candidate(base, a) == candidate(base, b),
    ensures
        a == b,
{
    let ca = candidate(base, a);
    let cb = candidate(base, b);
    let k = base.len() + 1;
    assert(ca.subrange(k as int, ca.len() as int) =~= decimal(a));
    assert(cb.subrange(k as int, cb.len() as int) =~= decimal(b));
    lemma_decimal_injective(a, b);
}

/// Pigeonhole: if `base` and its variants `2..n` are all taken, then `used`
/// has at least `n - 1` elements.
proof fn lemma_taken_bound(base: Seq<char>, used: Seq<Seq<char>>, n: nat)
    requires
        n >= 2,
        used.contains(base),
        forall|m: nat| 2 <= m < n ==> used.contains(#[trigger] candidate(base, m)),
    ensures
        n - 1 <= used.len(),
{
    let f = |m: int| candidate(base, m as nat);
    let range = vstd::set_lib::set_int_range(2, n as int);
    vstd::set_lib::lemma_int_range(2, n as int);
    let cands = range.map(f);
    assert(vstd::relations::injective_on(f, range)) by {
        assert forall|x: int, y: int| range.contains(x) && range.contains(y) && #[trigger] f(x) == #[trigger] f(y) implies x == y by {
            lemma_candidate_injective(base, x as nat, y as nat);
        }
    }
    vstd::set_lib::lemma_map_size(range, cands, f);
    lemma_decimal_digits(0);
    assert(!cands.contains(base)) by {
        if cands.contains(base) {
            let x = choose|x: int| range.contains(x) && f(x) == base;
            assert(f(x).len() > base.len()) by {
                lemma_decimal_digits(x as nat);
            }
        }
    }
    let all = cands.insert(base);
    assert(all.subset_of(used.to_set())) by {
        assert forall|s: Seq<char>| all.contains(s) implies used.to_set().contains(s) by {
            if s != base {
                let x = choose|x: int| range.contains(x) && f(x) == s;
                assert(used.contains(candidate(base, x as nat)));
            }
        }
    }
    used.lemma_cardinality_of_set();
    vstd::set_lib::lemma_len_subset(all, used.to_set());
}

proof fn lemma_first_free(base: Seq<char>, used: Set<Seq<char>>, n: nat)
    requires
        2 <= n,
        !used.contains(candidate(base, n)),
        forall|m: nat| 2 <= m < n ==> used.contains(#[trigger] candidate(base, m)),
    ensures
        first_free(base, used) == n,
{
    let f = first_free(base, used);
    assert(2 <= f && !used.contains(candidate(base, f)) && forall|m: nat|
        2 <= m < f ==> used.contains(#[trigger] candidate(base, m)));
    if f < n {
        assert(used.contains(candidate(base, f)));
    }
    if n < f {
        assert(used.contains(candidate(base, n)));
    }
}

proof fn lemma_least_free_from(base: Seq<char>, used: Seq<Seq<char>>, n: nat)
    requires
        2 <= n,
        used.contains(base),
        forall|m: nat| 2 <= m < n ==> used.contains(#[trigger] candidate(base, m)),
    ensures
        2 <= first_free(base, used.to_set()),
        !used.contains(candidate(base, first_free(base, used.to_set()))),
        forall|m: nat| 2 <= m < first_free(base, used.to_set()) ==> used.contains(#[trigger] candidate(base, m)),
    decreases used.len() + 2 - n,
{
    lemma_taken_bound(base, used, n);
    assert forall|m: nat| 2 <= m < n implies used.to_set().contains(#[trigger] candidate(base, m)) by {
        assert(used.contains(candidate(base, m)));
    }
    if !used.contains(candidate(base, n)) {
        lemma_first_free(base, used.to_set(), n);
    } else {
        assert forall|m: nat| 2 <= m < n + 1 implies used.contains(#[trigger] candidate(base, m)) by {
            if m < n {
                assert(used.contains(candidate(base, m)));
            }
        }
        lemma_taken_bound(base, used, n + 1);
        lemma_least_free_from(base, used, n + 1);
    }
}

/// A reserved slug is never taken already: it is `base` when `base` is
/// free, else `base-n` for the least `n >= 2` whose variant is free.
pub proof fn law_uniquified_least_free(base: Seq<char>, used: Seq<Seq<char>>)
    ensures
        !used.contains(uniquified(base, used.to_set())),
        !used.contains(base) ==> uniquified(base, used.to_set()) == base,
        used.contains(base) ==> exists|n: nat|
            2 <= n && uniquified(base, used.to_set()) == candidate(base, n) && !used.contains(
                #[trigger] candidate(base, n),
            ) && forall|m: nat| 2 <= m < n ==> used.contains(#[trigger] candidate(base, m)),
{
    if used.contains(base) {
        lemma_least_free_from(base, used, 2);
        let f = first_free(base, used.to_set());
        assert(!used.contains(candidate(base, f)));
    } else {
        assert(!used.to_set().contains(base));
    }
}

/// Reserves a slug: `base` when it is not taken yet, else `base-2`, `base-3`,
/// ... (the first one not taken); the slug is added to `used`.
pub fn uniquify_slug(base: &str, used: &mut Vec<String>) -> (r: String)
    requires
        old(used)@.len() < usize::MAX,
    ensures
        r@ == uniquified(base@, string_views(old(used)@).to_set()),
        !string_views(old(used)@).contains(r@),
        string_views(final(used)@) == string_views(old(used)@).push(r@),
{
    let b = chars_of(base);
    let ghost u0 = string_views(used@);
    if !contains_string(used, &b) {
        assert(!u0.to_set().contains(b@));
        let r = string_from(base);
        used.push(r.clone());
        assert(string_views(used@) =~= u0.push(r@));
        return r;
    }
    let mut n: usize = 2;
    loop
        invariant
            2 <= n <= u0.len() + 1,
            u0.len() < usize::MAX,
            u0 == string_views(used@),
            u0 == string_views(old(used)@),
            b@ == base@,
            u0.contains(b@),
            forall|m: nat| 2 <= m < n ==> u0.contains(#[trigger] candidate(b@, m)),
        decreases u0.len() + 1 - n,
    {
        let mut cand = b.clone();
        cand.push('-');
        push_decimal(&mut cand, n);
        assert(cand@ =~= candidate(b@, n as nat));
        if !contains_string(used, &cand) {
            proof {
                assert forall|m: nat| 2 <= m < n implies u0.to_set().contains(
                    #[trigger] candidate(b@, m),
                ) by {
                    assert(u0.contains(candidate(b@, m)));
                }
                assert(!u0.to_set().contains(candidate(b@, n as nat)));
                assert(u0.to_set().contains(b@));
                lemma_first_free(b@, u0.to_set(), n as nat);
            }
            let r = string_of(&cand);
            used.push(r.clone());
            assert(string_views(used@) =~= u0.push(r@));
            return r;
        }
        proof {
            lemma_taken_bound(b@, u0, (n + 1) as nat);
        }
        n = n + 1;
    }
}

// ---------------------------------------------------------------------------
// Frontmatter and links
// ---------------------------------------------------------------------------

/// A character escaped for a YAML double-quoted scalar.
pub open spec fn yaml_escape_char(c: char) -> Seq<char> {
    if c == '\\' {
        seq!['\\', '\\']
    } else if c == '"' {
        seq!['\\', '"']
    } else if c == '\n' {
        seq!['\\', 'n']
    } else if c == '\r' {
        seq!['\\', 'r']
    } else {
        seq![c]
    }
}

/// `value` escaped for a YAML double-quoted scalar (backslash, quote, CR, LF).
pub open spec fn yaml_escaped(s: Seq<char>) -> Seq<char>
    decreases s.len(),
{
    if s.len() == 0 {
        Seq::empty()
    } else {
        yaml_escaped(s.drop_last()) + yaml_escape_char(s.last())
    }
}

fn yaml_escape_chars(s: &[char]) -> (r: Vec<char>)
    ensures
        r@ == yaml_escaped(s@),
{
    let mut r: Vec<char> = Vec::new();
    let mut i: usize = 0;
    while i < s.len()
        invariant
            i <= s@.len(),
            r@ == yaml_escaped(s@.take(i as int)),
        decreases s.len() - i,
    {
        let c = s[i];
        if c == '\\' {
            r.push('\\');
            r.push('\\');
        } else if c == '"' {
            r.push('\\');
            r.push('"');
        } else if c == '\n' {
            r.push('\\');
            r.push('n');
        } else if c == '\r' {
            r.push('\\');
            r.push('r');
        } else {
            r.push(c);
        }
        assert(s@.take(i + 1).drop_last() =~= s@.take(i as int));
        i = i + 1;
        assert(r@ =~= yaml_escaped(s@.take(i as int)));
    }
    assert(s@.take(s@.len() as int) =~= s@);
    r
}

/// Escapes `\`, `"`, newline and carriage return for a YAML double-quoted scalar.
pub fn yaml_escape_double_quoted(value: &str) -> (r: String)
    ensures
        r@ == yaml_escaped(value@),
{
    let cs = chars_of(value);
    let e = yaml_escape_chars(&cs);
    string_of(&e)
}

/// The YAML frontmatter of a generated page.
pub open spec fn frontmatter(title: Seq<char>, page_type: Seq<char>, source_uri: Seq<char>) -> Seq<char> {
    "---\ntitle: \""@ + yaml_escaped(title) + "\"\ntype: "@ + page_type + "\nsources: [\""@
        + yaml_escaped(source_uri) + "\"]\ngenerated: true\n---\n"@
}

fn frontmatter_chars(title: &[char], page_type: &str, source_uri: &[char]) -> (r: Vec<char>)
    ensures
        r@ == frontmatter(title@, page_type@, source_uri@),
{
    let mut r: Vec<char> = Vec::new();
    push_str(&mut r, "---\ntitle: \"");
    let et = yaml_escape_chars(title);
    push_all(&mut r, &et);
    push_str(&mut r, "\"\ntype: ");
    push_str(&mut r, page_type);
    push_str(&mut r, "\nsources: [\"");
    let eu = yaml_escape_chars(source_uri);
    push_all(&mut r, &eu);
    push_str(&mut r, "\"]\ngenerated: true\n---\n");
    r
}

/// YAML frontmatter with the title, page type, source list and `generated: true`.
pub fn build_frontmatter(title: &str, page_type_str: &str, source_uri: &str) -> (r: String)
    ensures
        r@ == frontmatter(title@, page_type_str@, source_uri@),
{
    let t = chars_of(title);
    let u = chars_of(source_uri);
    let f = frontmatter_chars(&t, page_type_str, &u);
    string_of(&f)
}

/// A display text made safe inside `[[path|display]]`: `|` and `]` removed,
/// line breaks turned into spaces.
pub open spec fn sanitized(s: Seq<char>) -> Seq<char>
    decreases s.len(),
{
    if s.len() == 0 {
        Seq::empty()
    } else {
        let c = s.last();
        sanitized(s.drop_last()) + if c == '|' || c == ']' {
            Seq::<char>::empty()
        } else if c == '\n' || c == '\r' {
            seq![' ']
        } else {
            seq![c]
        }
    }
}

fn sanitize_chars(s: &[char]) -> (r: Vec<char>)
    ensures
        r@ == sanitized(s@),
{
    let mut r: Vec<char> = Vec::new();
    let mut i: usize = 0;
    while i < s.len()
        invariant
            i <= s@.len(),
            r@ == sanitized(s@.take(i as int)),
        decreases s.len() - i,
    {
        let c = s[i];
        if c == '|' || c == ']' {
        } else if c == '\n' || c == '\r' {
            r.push(' ');
        } else {
            r.push(c);
        }
        assert(s@.take(i + 1).drop_last() =~= s@.take(i as int));
        i = i + 1;
        assert(r@ =~= sanitized(s@.take(i as int)));
    }
    assert(s@.take(s@.len() as int) =~= s@);
    r
}

/// Removes `|` and `]` and turns line breaks into spaces.
pub fn sanitize_display(display: &str) -> (r: String)
    ensures
        r@ == sanitized(display@),
{
    let cs = chars_of(display);
    let s = sanitize_chars(&cs);
    string_of(&s)
}

/// `[[path|display]]`.
pub open spec fn link(path: Seq<char>, display: Seq<char>) -> Seq<char> {
    seq!['[', '['] + path + seq!['|'] + sanitized(display) + seq![']', ']']
}

fn link_chars(path: &[char], display: &[char]) -> (r: Vec<char>)
    ensures
        r@ == link(path@, display@),
{
    let mut r: Vec<char> = Vec::new();
    r.push('[');
    r.push('[');
    push_all(&mut r, path);
    r.push('|');
    let s = sanitize_chars(display);
    push_all(&mut r, &s);
    r.push(']');
    r.push(']');
    assert(r@ =~= link(path@, display@));
    r
}

/// An Obsidian wikilink `[[path|display]]` with a sanitized display text.
pub fn wikilink(path: &str, display: &str) -> (r: String)
    ensures
        r@ == link(path@, display@),
{
    let p = chars_of(path);
    let d = chars_of(display);
    let l = link_chars(&p, &d);
    string_of(&l)
}


// ---------------------------------------------------------------------------
// Rendering
// ---------------------------------------------------------------------------

/// The mathematical view of a page draft.
pub struct PageView {
    pub slug: Seq<char>,
    pub title: Seq<char>,
    pub page_type: WikiPageType,
    pub body: Seq<char>,
    pub source_uris: Seq<Seq<char>>,
}

impl View for WikiPageDraft {
    type V = PageView;

    open spec fn view(&self) -> PageView {
        PageView {
            slug: self.slug@,
            title: self.title@,
            page_type: self.page_type,
            body: self.body_markdown@,
            source_uris: string_views(self.source_uris@),
        }
    }
}

pub open spec fn page_views(pages: Seq<WikiPageDraft>) -> Seq<PageView> {
    pages.map_values(|p: WikiPageDraft| p@)
}

pub open spec fn entity_names(es: Seq<WikiEntity>) -> Seq<Seq<char>> {
    es.map_values(|e: WikiEntity| e.name@)
}

pub open spec fn entity_blurbs(es: Seq<WikiEntity>) -> Seq<Seq<char>> {
    es.map_values(|e: WikiEntity| e.blurb@)
}

pub open spec fn concept_names(cs: Seq<WikiConcept>) -> Seq<Seq<char>> {
    cs.map_values(|c: WikiConcept| c.name@)
}

pub open spec fn concept_blurbs(cs: Seq<WikiConcept>) -> Seq<Seq<char>> {
    cs.map_values(|c: WikiConcept| c.blurb@)
}

/// The slugs of a list of names, each one made unique among the earlier ones.
pub open spec fn unique_slugs(names: Seq<Seq<char>>) -> Seq<Seq<char>>
    decreases names.len(),
{
    if names.len() == 0 {
        Seq::empty()
    } else {
        let prev = unique_slugs(names.drop_last());
        prev.push(uniquified(slug_of(names.last()), prev.to_set()))
    }
}

/// Every segment placed under directory `dir` (a prefix such as `entities/`).
pub open spec fn in_dir(dir: Seq<char>, segs: Seq<Seq<char>>) -> Seq<Seq<char>> {
    segs.map_values(|s: Seq<char>| dir + s)
}

/// One `\n[[slug|name]]\n` line per member.
pub open spec fn link_lines(slugs: Seq<Seq<char>>, names: Seq<Seq<char>>) -> Seq<char>
    decreases slugs.len(),
{
    if slugs.len() == 0 {
        Seq::empty()
    } else {
        link_lines(slugs.drop_last(), names) + seq!['\n'] + link(
            slugs.last(),
            names[slugs.len() - 1],
        ) + seq!['\n']
    }
}

pub open spec fn source_slug(title: Seq<char>) -> Seq<char> {
    "sources/"@ + uniquified(slug_of(title), Set::empty())
}

pub open spec fn entity_slugs(a: WikiAnalysis) -> Seq<Seq<char>> {
    in_dir("entities/"@, unique_slugs(entity_names(a.entities@)))
}

pub open spec fn concept_slugs(a: WikiAnalysis) -> Seq<Seq<char>> {
    in_dir("concepts/"@, unique_slugs(concept_names(a.concepts@)))
}

/// The source-summary page: frontmatter, title heading, summary, then a
/// forward link to every entity and concept page.
pub open spec fn summary_body(a: WikiAnalysis, uri: Seq<char>, title: Seq<char>) -> Seq<char> {
    frontmatter(title, "source_summary"@, uri) + "# "@ + title + "\n\n"@ + a.summary@ + seq!['\n']
        + link_lines(entity_slugs(a), entity_names(a.entities@)) + link_lines(
        concept_slugs(a),
        concept_names(a.concepts@),
    )
}

/// An entity or concept page: frontmatter, heading, blurb, back link.
pub open spec fn member_body(
    name: Seq<char>,
    blurb: Seq<char>,
    kind: WikiPageType,
    uri: Seq<char>,
    backlink: Seq<char>,
) -> Seq<char> {
    frontmatter(name, kind.kind_label(), uri) + "# "@ + name + "\n\n"@ + blurb + "\n\n"@ + backlink
        + seq!['\n']
}

pub open spec fn member_pages(
    slugs: Seq<Seq<char>>,
    names: Seq<Seq<char>>,
    blurbs: Seq<Seq<char>>,
    kind: WikiPageType,
    uri: Seq<char>,
    backlink: Seq<char>,
) -> Seq<PageView> {
    Seq::new(
        slugs.len(),
        |i: int|
            PageView {
                slug: slugs[i],
                title: names[i],
                page_type: kind,
                body: member_body(names[i], blurbs[i], kind, uri, backlink),
                source_uris: seq![uri],
            },
    )
}

/// The pages rendered for one source: its summary page first, then one page
/// per entity, then one per concept.
pub open spec fn rendered_pages(a: WikiAnalysis, uri: Seq<char>, title: Seq<char>) -> Seq<PageView> {
    let backlink = link(source_slug(title), title);
    seq![
        PageView {
            slug: source_slug(title),
            title: title,
            page_type: WikiPageType::SourceSummary,
            body: summary_body(a, uri, title),
            source_uris: seq![uri],
        },
    ] + member_pages(
        entity_slugs(a),
        entity_names(a.entities@),
        entity_blurbs(a.entities@),
        WikiPageType::Entity,
        uri,
        backlink,
    ) + member_pages(
        concept_slugs(a),
        concept_names(a.concepts@),
        concept_blurbs(a.concepts@),
        WikiPageType::Concept,
        uri,
        backlink,
    )
}

/// The `- [[slug|title]]` bullets of the pages of type `t`, in page order.
pub open spec fn bullets(pages: Seq<PageView>, t: WikiPageType) -> Seq<char>
    decreases pages.len(),
{
    if pages.len() == 0 {
        Seq::empty()
    } else {
        bullets(pages.drop_last(), t) + if pages.last().page_type == t {
            "- "@ + link(pages.last().slug, pages.last().title) + seq!['\n']
        } else {
            Seq::empty()
        }
    }
}

pub open spec fn has_type(pages: Seq<PageView>, t: WikiPageType) -> bool {
    exists|i: int| 0 <= i < pages.len() && pages[i].page_type == t
}

/// A section: its header and bullets, or nothing when no page has its type.
pub open spec fn section(header: Seq<char>, pages: Seq<PageView>, t: WikiPageType) -> Seq<char> {
    if has_type(pages, t) {
        header + bullets(pages, t)
    } else {
        Seq::empty()
    }
}

/// The wiki index: a `# Wiki` heading and one section per page type present.
pub open spec fn index_markdown(pages: Seq<PageView>) -> Seq<char> {
    "# Wiki\n"@ + section("\n## Sources\n"@, pages, WikiPageType::SourceSummary) + section(
        "\n## Entities\n"@,
        pages,
        WikiPageType::Entity,
    ) + section("\n## Concepts\n"@, pages, WikiPageType::Concept)
}

fn push_bullets(out: &mut Vec<char>, pages: &[WikiPageDraft], t: WikiPageType) -> (found: bool)
    ensures
        final(out)@ == old(out)@ + bullets(page_views(pages@), t),
        found == has_type(page_views(pages@), t),
{
    let ghost pv = page_views(pages@);
    let mut found = false;
    let mut i: usize = 0;
    while i < pages.len()
        invariant
            i <= pages@.len(),
            pv == page_views(pages@),
            out@ == old(out)@ + bullets(pv.take(i as int), t),
            found == has_type(pv.take(i as int), t),
        decreases pages.len() - i,
    {
        proof {
            assert(pv.take(i + 1).drop_last() =~= pv.take(i as int));
        }
        let ghost before = out@;
        if pages[i].page_type == t {
            push_str(out, "- ");
            let sl = chars_of(pages[i].slug.as_str());
            let ti = chars_of(pages[i].title.as_str());
            let l = link_chars(&sl, &ti);
            push_all(out, &l);
            out.push('\n');
            found = true;
            assert(out@ =~= before + ("- "@ + link(pv[i as int].slug, pv[i as int].title)
                + seq!['\n']));
            assert(pv.take(i + 1)[i as int].page_type == t);
        } else {
            assert(out@ =~= before + Seq::<char>::empty());
        }
        i = i + 1;
        assert(out@ =~= old(out)@ + bullets(pv.take(i as int), t));
    }
    assert(pv.take(pages@.len() as int) =~= pv);
    found
}

fn push_section(out: &mut Vec<char>, header: &str, pages: &[WikiPageDraft], t: WikiPageType)
    ensures
        final(out)@ == old(out)@ + section(header@, page_views(pages@), t),
{
    let mut b: Vec<char> = Vec::new();
    let found = push_bullets(&mut b, pages, t);
    assert(b@ =~= bullets(page_views(pages@), t));
    if found {
        push_str(out, header);
        push_all(out, &b);
        assert(out@ =~= old(out)@ + section(header@, page_views(pages@), t));
    } else {
        assert(out@ =~= old(out)@ + section(header@, page_views(pages@), t));
    }
}

/// The wiki index markdown for a list of pages.
pub fn build_index_markdown(pages: &[WikiPageDraft]) -> (r: String)
    ensures
        r@ == index_markdown(page_views(pages@)),
{
    let mut out: Vec<char> = Vec::new();
    push_str(&mut out, "# Wiki\n");
    push_section(&mut out, "\n## Sources\n", pages, WikiPageType::SourceSummary);
    push_section(&mut out, "\n## Entities\n", pages, WikiPageType::Entity);
    push_section(&mut out, "\n## Concepts\n", pages, WikiPageType::Concept);
    assert(out@ =~= index_markdown(page_views(pages@)));
    string_of(&out)
}

pub proof fn lemma_unique_slugs_len(names: Seq<Seq<char>>)
    ensures
        unique_slugs(names).len() == names.len(),
    decreases names.len(),
{
    if names.len() > 0 {
        lemma_unique_slugs_len(names.drop_last());
    }
}

/// Unique slugs for `names`, each under directory `dir`.
fn member_slugs(names: &Vec<Vec<char>>, dir: &str) -> (r: Vec<Vec<char>>)
    ensures
        views(r@) == in_dir(dir@, unique_slugs(views(names@))),
        r@.len() == names@.len(),
{
    let mut used: Vec<String> = Vec::new();
    let mut out: Vec<Vec<char>> = Vec::new();
    let mut i: usize = 0;
    while i < names.len()
        invariant
            i <= names@.len(),
            used@.len() == i,
            string_views(used@) == unique_slugs(views(names@).take(i as int)),
            views(out@) == in_dir(dir@, unique_slugs(views(names@).take(i as int))),
        decreases names.len() - i,
    {
        proof {
            assert(views(names@).take(i + 1).drop_last() =~= views(names@).take(i as int));
            assert(views(names@).take(i + 1).last() == names@[i as int]@);
        }
        let name = string_of(&names[i]);
        let base = slugify(name.as_str());
        let seg = uniquify_slug(base.as_str(), &mut used);
        let mut full = chars_of(dir);
        let segc = chars_of(seg.as_str());
        push_all(&mut full, &segc);
        proof {
            lemma_views_push(out@, full);
            let prev = unique_slugs(views(names@).take(i as int));
            assert(unique_slugs(views(names@).take(i + 1)) == prev.push(seg@));
            assert(in_dir(dir@, prev.push(seg@)) =~= in_dir(dir@, prev).push(dir@ + seg@));
        }
        out.push(full);
        i = i + 1;
        proof {
            assert(string_views(used@) =~= unique_slugs(views(names@).take(i as int)));
        }
    }
    assert(views(names@).take(names@.len() as int) =~= views(names@));
    proof {
        lemma_unique_slugs_len(views(names@));
    }
    out
}

fn push_link_lines(out: &mut Vec<char>, slugs: &Vec<Vec<char>>, names: &Vec<Vec<char>>)
    requires
        slugs@.len() == names@.len(),
    ensures
        final(out)@ == old(out)@ + link_lines(views(slugs@), views(names@)),
{
    let mut i: usize = 0;
    while i < slugs.len()
        invariant
            i <= slugs@.len() == names@.len(),
            out@ == old(out)@ + link_lines(views(slugs@).take(i as int), views(names@)),
        decreases slugs.len() - i,
    {
        let ghost before = out@;
        out.push('\n');
        let l = link_chars(&slugs[i], &names[i]);
        push_all(out, &l);
        out.push('\n');
        proof {
            assert(views(slugs@).take(i + 1).drop_last() =~= views(slugs@).take(i as int));
        }
        i = i + 1;
        assert(out@ =~= old(out)@ + link_lines(views(slugs@).take(i as int), views(names@)));
    }
    assert(views(slugs@).take(slugs@.len() as int) =~= views(slugs@));
}

fn push_member_pages(
    pages: &mut Vec<WikiPageDraft>,
    slugs: &Vec<Vec<char>>,
    names: &Vec<Vec<char>>,
    blurbs: &Vec<Vec<char>>,
    kind: WikiPageType,
    uri: &[char],
    backlink: &[char],
)
    requires
        slugs@.len() == names@.len() == blurbs@.len(),
    ensures
        page_views(final(pages)@) == page_views(old(pages)@) + member_pages(
            views(slugs@),
            views(names@),
            views(blurbs@),
            kind,
            uri@,
            backlink@,
        ),
{
    let ghost target = member_pages(views(slugs@), views(names@), views(blurbs@), kind, uri@, backlink@);
    let mut i: usize = 0;
    while i < slugs.len()
        invariant
            i <= slugs@.len() == names@.len() == blurbs@.len(),
            target == member_pages(views(slugs@), views(names@), views(blurbs@), kind, uri@, backlink@),
            page_views(pages@) == page_views(old(pages)@) + target.take(i as int),
        decreases slugs.len() - i,
    {
        let mut body = frontmatter_chars(&names[i], kind.as_str(), uri);
        push_str(&mut body, "# ");
        push_all(&mut body, &names[i]);
        push_str(&mut body, "\n\n");
        push_all(&mut body, &blurbs[i]);
        push_str(&mut body, "\n\n");
        push_all(&mut body, backlink);
        body.push('\n');
        let mut uris: Vec<String> = Vec::new();
        uris.push(string_of(uri));
        let page = WikiPageDraft {
            slug: string_of(&slugs[i]),
            title: string_of(&names[i]),
            page_type: kind,
            body_markdown: string_of(&body),
            source_uris: uris,
        };
        let ghost before = page_views(pages@);
        pages.push(page);
        proof {
            assert(string_views(uris@) =~= seq![uri@]);
            assert(body@ =~= member_body(names@[i as int]@, blurbs@[i as int]@, kind, uri@, backlink@));
            assert(page@ == target[i as int]);
            assert(page_views(pages@) =~= before.push(page@));
        }
        i = i + 1;
        assert(page_views(pages@) =~= page_views(old(pages)@) + target.take(i as int));
    }
    assert(target.take(slugs@.len() as int) =~= target);
}

/// Deterministic: structured analysis to markdown drafts. No I/O.
pub fn render_wiki_pages(analysis: &WikiAnalysis, source_uri: &str, source_title: &str) -> (r:
    WikiCompileResult)
    ensures
        page_views(r.pages@) == rendered_pages(*analysis, source_uri@, source_title@),
        r.index_markdown@ == index_markdown(rendered_pages(*analysis, source_uri@, source_title@)),
{
    let ghost a = *analysis;
    let uri = chars_of(source_uri);
    let title = chars_of(source_title);
    // Source summary slug.
    let mut sources_used: Vec<String> = Vec::new();
    let source_base = slugify(source_title);
    let seg = uniquify_slug(source_base.as_str(), &mut sources_used);
    assert(string_views(Seq::<String>::empty()).to_set() =~= Set::<Seq<char>>::empty());
    let mut sslug = chars_of("sources/");
    let segc = chars_of(seg.as_str());
    push_all(&mut sslug, &segc);
    assert(sslug@ == source_slug(title@));
    // Entity and concept names, blurbs and slugs.
    let mut enames: Vec<Vec<char>> = Vec::new();
    let mut eblurbs: Vec<Vec<char>> = Vec::new();
    let mut i: usize = 0;
    while i < analysis.entities.len()
        invariant
            i <= analysis.entities@.len(),
            views(enames@) == entity_names(analysis.entities@).take(i as int),
            views(eblurbs@) == entity_blurbs(analysis.entities@).take(i as int),
        decreases analysis.entities.len() - i,
    {
        let n = chars_of(analysis.entities[i].name.as_str());
        let b = chars_of(analysis.entities[i].blurb.as_str());
        proof {
            lemma_views_push(enames@, n);
            lemma_views_push(eblurbs@, b);
            assert(entity_names(analysis.entities@).take(i + 1) =~= entity_names(
                analysis.entities@,
            ).take(i as int).push(n@));
            assert(entity_blurbs(analysis.entities@).take(i + 1) =~= entity_blurbs(
                analysis.entities@,
            ).take(i as int).push(b@));
        }
        enames.push(n);
        eblurbs.push(b);
        i = i + 1;
    }
    assert(entity_names(analysis.entities@).take(i as int) =~= entity_names(analysis.entities@));
    assert(entity_blurbs(analysis.entities@).take(i as int) =~= entity_blurbs(analysis.entities@));
    let mut cnames: Vec<Vec<char>> = Vec::new();
    let mut cblurbs: Vec<Vec<char>> = Vec::new();
    let mut j: usize = 0;
    while j < analysis.concepts.len()
        invariant
            j <= analysis.concepts@.len(),
            views(cnames@) == concept_names(analysis.concepts@).take(j as int),
            views(cblurbs@) == concept_blurbs(analysis.concepts@).take(j as int),
        decreases analysis.concepts.len() - j,
    {
        let n = chars_of(analysis.concepts[j].name.as_str());
        let b = chars_of(analysis.concepts[j].blurb.as_str());
        proof {
            lemma_views_push(cnames@, n);
            lemma_views_push(cblurbs@, b);
            assert(concept_names(analysis.concepts@).take(j + 1) =~= concept_names(
                analysis.concepts@,
            ).take(j as int).push(n@));
            assert(concept_blurbs(analysis.concepts@).take(j + 1) =~= concept_blurbs(
                analysis.concepts@,
            ).take(j as int).push(b@));
        }
        cnames.push(n);
        cblurbs.push(b);
        j = j + 1;
    }
    assert(concept_names(analysis.concepts@).take(j as int) =~= concept_names(analysis.concepts@));
    assert(concept_blurbs(analysis.concepts@).take(j as int) =~= concept_blurbs(analysis.concepts@));
    let eslugs = member_slugs(&enames, "entities/");
    let cslugs = member_slugs(&cnames, "concepts/");
    // Summary page.
    let mut body = frontmatter_chars(&title, WikiPageType::SourceSummary.as_str(), &uri);
    push_str(&mut body, "# ");
    push_all(&mut body, &title);
    push_str(&mut body, "\n\n");
    push_str(&mut body, analysis.summary.as_str());
    body.push('\n');
    push_link_lines(&mut body, &eslugs, &enames);
    push_link_lines(&mut body, &cslugs, &cnames);
    assert(body@ =~= summary_body(a, uri@, title@));
    let mut pages: Vec<WikiPageDraft> = Vec::new();
    let mut uris: Vec<String> = Vec::new();
    uris.push(string_of(&uri));
    assert(string_views(uris@) =~= seq![uri@]);
    pages.push(
        WikiPageDraft {
            slug: string_of(&sslug),
            title: string_of(&title),
            page_type: WikiPageType::SourceSummary,
            body_markdown: string_of(&body),
            source_uris: uris,
        },
    );
    let backlink = link_chars(&sslug, &title);
    push_member_pages(&mut pages, &eslugs, &enames, &eblurbs, WikiPageType::Entity, &uri, &backlink);
    push_member_pages(&mut pages, &cslugs, &cnames, &cblurbs, WikiPageType::Concept, &uri, &backlink);
    assert(page_views(pages@) =~= rendered_pages(a, uri@, title@));
    let index_markdown = build_index_markdown(&pages);
    WikiCompileResult { pages, index_markdown }
}


// ---------------------------------------------------------------------------
// Laws
// ---------------------------------------------------------------------------

pub open spec fn slug_char(c: char) -> bool {
    ('a' <= c && c <= 'z') || ('0' <= c && c <= '9') || c == '-'
}

/// A slug that is safe as a path segment: not empty, only `[a-z0-9-]`, and
/// neither starting nor ending with `-`.
pub open spec fn path_safe_slug(s: Seq<char>) -> bool {
    &&& s.len() > 0
    &&& forall|i: int| 0 <= i < s.len() ==> slug_char(#[trigger] s[i])
    &&& s[0] != '-'
    &&& s.last() != '-'
}

proof fn lemma_scan_chars(cs: Seq<char>)
    ensures
        forall|i: int| 0 <= i < slug_scan(cs).len() ==> slug_char(#[trigger] slug_scan(cs)[i]),
    decreases cs.len(),
{
    if cs.len() > 0 {
        lemma_scan_chars(cs.drop_last());
        let out = slug_scan(cs.drop_last());
        assert forall|i: int| 0 <= i < slug_scan(cs).len() implies slug_char(#[trigger] slug_scan(cs)[i]) by {
            if i < out.len() {
                assert(slug_scan(cs)[i] == out[i]);
            }
        }
    }
}

proof fn lemma_trim_dash_start(s: Seq<char>)
    requires
        forall|i: int| 0 <= i < s.len() ==> slug_char(#[trigger] s[i]),
    ensures
        forall|i: int| 0 <= i < trim_dash_start(s).len() ==> slug_char(#[trigger] trim_dash_start(s)[i]),
        trim_dash_start(s).len() > 0 ==> trim_dash_start(s)[0] != '-',
    decreases s.len(),
{
    if s.len() > 0 && s[0] == '-' {
        assert forall|i: int| 0 <= i < s.drop_first().len() implies slug_char(#[trigger] s.drop_first()[i]) by {
            assert(s.drop_first()[i] == s[i + 1]);
        }
        lemma_trim_dash_start(s.drop_first());
    }
}

proof fn lemma_trim_dash_end(s: Seq<char>)
    requires
        forall|i: int| 0 <= i < s.len() ==> slug_char(#[trigger] s[i]),
        s.len() > 0 ==> s[0] != '-',
    ensures
        forall|i: int| 0 <= i < trim_dash_end(s).len() ==> slug_char(#[trigger] trim_dash_end(s)[i]),
        trim_dash_end(s).len() > 0 ==> trim_dash_end(s)[0] != '-' && trim_dash_end(s).last() != '-',
    decreases s.len(),
{
    if s.len() > 0 && s.last() == '-' {
        assert forall|i: int| 0 <= i < s.drop_last().len() implies slug_char(#[trigger] s.drop_last()[i]) by {
            assert(s.drop_last()[i] == s[i]);
        }
        if s.drop_last().len() > 0 {
            assert(s.drop_last()[0] == s[0]);
        }
        lemma_trim_dash_end(s.drop_last());
    }
}

/// There is a least free numbered variant at or below a free one.
proof fn lemma_least_free(base: Seq<char>, used: Set<Seq<char>>, k: nat)
    requires
        2 <= k,
        !used.contains(candidate(base, k)),
    ensures
        exists|n: nat|
            2 <= n && !used.contains(candidate(base, n)) && forall|m: nat|
                2 <= m < n ==> used.contains(#[trigger] candidate(base, m)),
    decreases k,
{
    if forall|m: nat| 2 <= m < k ==> used.contains(#[trigger] candidate(base, m)) {
        assert(2 <= k && !used.contains(candidate(base, k)));
    } else {
        let m = choose|m: nat| 2 <= m < k && !used.contains(#[trigger] candidate(base, m));
        lemma_least_free(base, used, m);
    }
}

/// A uniquified slug is never one already used.
proof fn lemma_uniquified_fresh(base: Seq<char>, used: Seq<Seq<char>>)
    ensures
        !used.to_set().contains(uniquified(base, used.to_set())),
{
    let u = used.to_set();
    if u.contains(base) {
        let k = (used.len() + 2) as nat;
        // Not all of `base-2` ..= `base-k` can be taken: `used` is too short.
        if forall|m: nat| 2 <= m <= k ==> u.contains(#[trigger] candidate(base, m)) {
            assert forall|m: nat| 2 <= m < k + 1 implies used.contains(#[trigger] candidate(base, m)) by {
                assert(u.contains(candidate(base, m)));
            }
            assert(used.contains(base));
            lemma_taken_bound(base, used, k + 1);
            assert(false);
        }
        let j = choose|j: nat| 2 <= j <= k && !u.contains(#[trigger] candidate(base, j));
        lemma_least_free(base, u, j);
    }
}

/// The slugs of a list are pairwise distinct.
proof fn lemma_unique_slugs_distinct(names: Seq<Seq<char>>)
    ensures
        forall|i: int, j: int|
            0 <= i < j < unique_slugs(names).len() ==> unique_slugs(names)[i] != unique_slugs(names)[j],
    decreases names.len(),
{
    if names.len() > 0 {
        lemma_unique_slugs_distinct(names.drop_last());
        let prev = unique_slugs(names.drop_last());
        let x = uniquified(slug_of(names.last()), prev.to_set());
        lemma_uniquified_fresh(slug_of(names.last()), prev);
        assert forall|i: int, j: int| 0 <= i < j < unique_slugs(names).len() implies unique_slugs(names)[i]
            != unique_slugs(names)[j] by {
            if j == prev.len() {
                assert(prev.contains(prev[i]));
            }
        }
    }
}

proof fn lemma_in_dir_distinct(dir: Seq<char>, segs: Seq<Seq<char>>)
    requires
        forall|i: int, j: int| 0 <= i < j < segs.len() ==> segs[i] != segs[j],
    ensures
        forall|i: int, j: int| 0 <= i < j < segs.len() ==> in_dir(dir, segs)[i] != in_dir(dir, segs)[j],
{
    assert forall|i: int, j: int| 0 <= i < j < segs.len() implies in_dir(dir, segs)[i] != in_dir(dir, segs)[j] by {
        if in_dir(dir, segs)[i] == in_dir(dir, segs)[j] {
            assert((dir + segs[i]).skip(dir.len() as int) =~= segs[i]);
            assert((dir + segs[j]).skip(dir.len() as int) =~= segs[j]);
        }
    }
}

/// The pages of one source have pairwise distinct slugs: the summary under
/// `sources/`, entities under `entities/` and concepts under `concepts/`,
/// each made unique within its directory.
pub proof fn law_rendered_slugs_distinct(a: WikiAnalysis, uri: Seq<char>, title: Seq<char>)
    ensures
        forall|i: int, j: int|
            0 <= i < j < rendered_pages(a, uri, title).len() ==> rendered_pages(a, uri, title)[i].slug
                != rendered_pages(a, uri, title)[j].slug,
{
    reveal_strlit("sources/");
    reveal_strlit("entities/");
    reveal_strlit("concepts/");
    let es = entity_slugs(a);
    let cs = concept_slugs(a);
    lemma_unique_slugs_len(entity_names(a.entities@));
    lemma_unique_slugs_len(concept_names(a.concepts@));
    lemma_unique_slugs_distinct(entity_names(a.entities@));
    lemma_unique_slugs_distinct(concept_names(a.concepts@));
    lemma_in_dir_distinct("entities/"@, unique_slugs(entity_names(a.entities@)));
    lemma_in_dir_distinct("concepts/"@, unique_slugs(concept_names(a.concepts@)));
    let pages = rendered_pages(a, uri, title);
    let ne = es.len();
    assert forall|i: int, j: int| 0 <= i < j < pages.len() implies pages[i].slug != pages[j].slug by {
        let si = pages[i].slug;
        let sj = pages[j].slug;
        if i == 0 {
            assert(si == source_slug(title));
            assert(si[0] == 's');
            if j <= ne {
                assert(sj == es[j - 1]);
                assert(sj[0] == 'e');
            } else {
                assert(sj == cs[j - 1 - ne]);
                assert(sj[0] == 'c');
            }
        } else if j <= ne {
            assert(si == es[i - 1] && sj == es[j - 1]);
        } else if i <= ne {
            assert(si == es[i - 1] && si[0] == 'e');
            assert(sj == cs[j - 1 - ne] && sj[0] == 'c');
        } else {
            assert(si == cs[i - 1 - ne] && sj == cs[j - 1 - ne]);
        }
    }
}

proof fn lemma_contains_concat(a: Seq<char>, x: Seq<char>, b: Seq<char>, t: Seq<char>)
    requires
        contains(x, t),
    ensures
        contains(a + x + b, t),
{
    let k = choose|k: int| matches_at(x, t, k);
    assert((a + x + b).subrange(a.len() + k, a.len() + k + t.len()) =~= x.subrange(k, k + t.len()));
    assert(matches_at(a + x + b, t, a.len() + k));
}

proof fn lemma_link_lines_contain(slugs: Seq<Seq<char>>, names: Seq<Seq<char>>, k: int)
    requires
        0 <= k < slugs.len(),
    ensures
        contains(link_lines(slugs, names), link(slugs[k], names[k])),
    decreases slugs.len(),
{
    let prev = link_lines(slugs.drop_last(), names);
    let l = link(slugs.last(), names[slugs.len() - 1]);
    if k == slugs.len() - 1 {
        assert(matches_at(l, l, 0)) by {
            assert(l.subrange(0, l.len() as int) =~= l);
        }
        lemma_contains_concat(prev + seq!['\n'], l, seq!['\n'], l);
        assert(link_lines(slugs, names) =~= (prev + seq!['\n']) + l + seq!['\n']);
    } else {
        assert(slugs.drop_last()[k] == slugs[k]);
        lemma_link_lines_contain(slugs.drop_last(), names, k);
        lemma_contains_concat(Seq::empty(), prev, seq!['\n'] + l + seq!['\n'], link(slugs[k], names[k]));
        assert(link_lines(slugs, names) =~= Seq::<char>::empty() + prev + (seq!['\n'] + l + seq!['\n']));
    }
}

/// The summary page links to every entity and concept page, and every
/// entity and concept page links back to the summary.
pub proof fn law_rendered_links_bidirectional(a: WikiAnalysis, uri: Seq<char>, title: Seq<char>)
    ensures
        forall|k: int|
            0 <= k < a.entities@.len() ==> contains(
                summary_body(a, uri, title),
                link(entity_slugs(a)[k], a.entities@[k].name@),
            ),
        forall|k: int|
            0 <= k < a.concepts@.len() ==> contains(
                summary_body(a, uri, title),
                link(concept_slugs(a)[k], a.concepts@[k].name@),
            ),
        forall|i: int|
            1 <= i < rendered_pages(a, uri, title).len() ==> contains(
                #[trigger] rendered_pages(a, uri, title)[i].body,
                link(source_slug(title), title),
            ),
{
    lemma_unique_slugs_len(entity_names(a.entities@));
    lemma_unique_slugs_len(concept_names(a.concepts@));
    let es = entity_slugs(a);
    let cs = concept_slugs(a);
    let en = entity_names(a.entities@);
    let cn = concept_names(a.concepts@);
    let head = frontmatter(title, "source_summary"@, uri) + "# "@ + title + "\n\n"@ + a.summary@ + seq!['\n'];
    assert(summary_body(a, uri, title) =~= head + link_lines(es, en) + link_lines(cs, cn));
    assert forall|k: int| 0 <= k < a.entities@.len() implies contains(
        summary_body(a, uri, title),
        link(es[k], a.entities@[k].name@),
    ) by {
        lemma_link_lines_contain(es, en, k);
        lemma_contains_concat(head, link_lines(es, en), link_lines(cs, cn), link(es[k], en[k]));
    }
    assert forall|k: int| 0 <= k < a.concepts@.len() implies contains(
        summary_body(a, uri, title),
        link(cs[k], a.concepts@[k].name@),
    ) by {
        lemma_link_lines_contain(cs, cn, k);
        lemma_contains_concat(head + link_lines(es, en), link_lines(cs, cn), Seq::empty(), link(cs[k], cn[k]));
        assert(summary_body(a, uri, title) =~= (head + link_lines(es, en)) + link_lines(cs, cn) + Seq::<char>::empty());
    }
    let back = link(source_slug(title), title);
    let pages = rendered_pages(a, uri, title);
    assert forall|i: int| 1 <= i < pages.len() implies contains(#[trigger] pages[i].body, back) by {
        let p = pages[i];
        let (name, blurb, kind) = if i <= es.len() {
            (en[i - 1], entity_blurbs(a.entities@)[i - 1], WikiPageType::Entity)
        } else {
            (cn[i - 1 - es.len()], concept_blurbs(a.concepts@)[i - 1 - es.len()], WikiPageType::Concept)
        };
        assert(p.body == member_body(name, blurb, kind, uri, back));
        let pre = frontmatter(name, kind.kind_label(), uri) + "# "@ + name + "\n\n"@ + blurb + "\n\n"@;
        assert(p.body =~= pre + back + seq!['\n']);
        assert(matches_at(back, back, 0)) by {
            assert(back.subrange(0, back.len() as int) =~= back);
        }
        lemma_contains_concat(pre, back, seq!['\n'], back);
    }
}

proof fn lemma_frontmatter_opens(t: Seq<char>, kind: Seq<char>, uri: Seq<char>, rest: Seq<char>)
    ensures
        starts_with(frontmatter(t, kind, uri) + rest, "---\ntitle: \""@),
        contains(frontmatter(t, kind, uri) + rest, "generated: true"@),
{
    let open = "---\ntitle: \""@;
    let mid = yaml_escaped(t) + "\"\ntype: "@ + kind + "\nsources: [\""@ + yaml_escaped(uri);
    let tail = "\"]\ngenerated: true\n---\n"@;
    let fm = frontmatter(t, kind, uri);
    assert(fm =~= open + mid + tail);
    assert((fm + rest).subrange(0, open.len() as int) =~= open);
    reveal_strlit("\"]\ngenerated: true\n---\n");
    reveal_strlit("generated: true");
    assert(tail.subrange(3, 18) =~= "generated: true"@);
    assert(matches_at(tail, "generated: true"@, 3));
    lemma_contains_concat(open + mid, tail, rest, "generated: true"@);
    assert(fm + rest =~= (open + mid) + tail + rest);
}

/// Every rendered page starts with its YAML frontmatter (`---`, then
/// `title:`), which marks it as generated.
pub proof fn law_rendered_pages_have_frontmatter(a: WikiAnalysis, uri: Seq<char>, title: Seq<char>)
    ensures
        forall|i: int|
            0 <= i < rendered_pages(a, uri, title).len() ==> starts_with(
                #[trigger] rendered_pages(a, uri, title)[i].body,
                "---\ntitle: \""@,
            ) && contains(rendered_pages(a, uri, title)[i].body, "generated: true"@),
{
    lemma_unique_slugs_len(entity_names(a.entities@));
    lemma_unique_slugs_len(concept_names(a.concepts@));
    let pages = rendered_pages(a, uri, title);
    let back = link(source_slug(title), title);
    assert forall|i: int| 0 <= i < pages.len() implies starts_with(#[trigger] pages[i].body, "---\ntitle: \""@)
        && contains(pages[i].body, "generated: true"@) by {
        if i == 0 {
            let rest = "# "@ + title + "\n\n"@ + a.summary@ + seq!['\n'] + link_lines(entity_slugs(a), entity_names(a.entities@))
                + link_lines(concept_slugs(a), concept_names(a.concepts@));
            assert(pages[i].body =~= frontmatter(title, "source_summary"@, uri) + rest);
            lemma_frontmatter_opens(title, "source_summary"@, uri, rest);
        } else if i <= entity_slugs(a).len() {
            let n = entity_names(a.entities@)[i - 1];
            let rest = "# "@ + n + "\n\n"@ + entity_blurbs(a.entities@)[i - 1] + "\n\n"@ + back + seq!['\n'];
            assert(pages[i].body =~= frontmatter(n, "entity"@, uri) + rest);
            lemma_frontmatter_opens(n, "entity"@, uri, rest);
        } else {
            let k = i - 1 - entity_slugs(a).len();
            let n = concept_names(a.concepts@)[k];
            let rest = "# "@ + n + "\n\n"@ + concept_blurbs(a.concepts@)[k] + "\n\n"@ + back + seq!['\n'];
            assert(pages[i].body =~= frontmatter(n, "concept"@, uri) + rest);
            lemma_frontmatter_opens(n, "concept"@, uri, rest);
        }
    }
}

/// A compile always writes the source's summary page, first and under
/// `sources/`, then one page per entity and one per concept; every page
/// lists exactly the compiled source.
pub proof fn law_rendered_summary_first_and_sourced(a: WikiAnalysis, uri: Seq<char>, title: Seq<char>)
    ensures
        rendered_pages(a, uri, title).len() == 1 + a.entities@.len() + a.concepts@.len(),
        rendered_pages(a, uri, title)[0].page_type == WikiPageType::SourceSummary,
        starts_with(rendered_pages(a, uri, title)[0].slug, "sources/"@),
        forall|i: int|
            0 <= i < rendered_pages(a, uri, title).len() ==> #[trigger] rendered_pages(a, uri, title)[i].source_uris
                == seq![uri],
{
    reveal_strlit("sources/");
    lemma_unique_slugs_len(entity_names(a.entities@));
    lemma_unique_slugs_len(concept_names(a.concepts@));
    let pages = rendered_pages(a, uri, title);
    let s0 = source_slug(title);
    assert(s0.subrange(0, 8) =~= "sources/"@);
}

/// The index starts with its `# Wiki` heading, never with frontmatter.
pub proof fn law_index_starts_with_heading(pages: Seq<PageView>)
    ensures
        starts_with(index_markdown(pages), "# Wiki\n"@),
        !starts_with(index_markdown(pages), "---"@),
{
    reveal_strlit("# Wiki\n");
    reveal_strlit("---");
    let rest = section("\n## Sources\n"@, pages, WikiPageType::SourceSummary) + section(
        "\n## Entities\n"@,
        pages,
        WikiPageType::Entity,
    ) + section("\n## Concepts\n"@, pages, WikiPageType::Concept);
    assert(index_markdown(pages) =~= "# Wiki\n"@ + rest);
    assert(("# Wiki\n"@ + rest).subrange(0, 7) =~= "# Wiki\n"@);
    assert(("# Wiki\n"@ + rest)[0] == '#');
}

/// The ASCII lowercase letters and digits of a text, in order.
pub open spec fn ascii_alnums(s: Seq<char>) -> Seq<char>
    decreases s.len(),
{
    if s.len() == 0 {
        Seq::empty()
    } else if ('a' <= s.last() && s.last() <= 'z') || ('0' <= s.last() && s.last() <= '9') {
        ascii_alnums(s.drop_last()).push(s.last())
    } else {
        ascii_alnums(s.drop_last())
    }
}

proof fn lemma_ascii_alnums_concat(a: Seq<char>, b: Seq<char>)
    ensures
        ascii_alnums(a + b) == ascii_alnums(a) + ascii_alnums(b),
    decreases b.len(),
{
    if b.len() == 0 {
        assert(a + b =~= a);
        assert(ascii_alnums(a) + ascii_alnums(b) =~= ascii_alnums(a));
    } else {
        lemma_ascii_alnums_concat(a, b.drop_last());
        assert((a + b).drop_last() =~= a + b.drop_last());
        assert((a + b).last() == b.last());
        assert((ascii_alnums(a) + ascii_alnums(b.drop_last())).push(b.last()) =~= ascii_alnums(a)
            + ascii_alnums(b.drop_last()).push(b.last()));
    }
}

proof fn lemma_scan_alnums(cs: Seq<char>)
    ensures
        ascii_alnums(slug_scan(cs)) == ascii_alnums(cs),
    decreases cs.len(),
{
    if cs.len() > 0 {
        lemma_scan_alnums(cs.drop_last());
        let out = slug_scan(cs.drop_last());
        let last = cs.last();
        if is_slug_keep(last) {
            assert(out.push(last).drop_last() =~= out);
        } else if is_slug_sep(last) && out.len() > 0 && out.last() != '-' {
            assert(out.push('-').drop_last() =~= out);
        }
    }
}

proof fn lemma_trim_dash_start_alnums(s: Seq<char>)
    ensures
        ascii_alnums(trim_dash_start(s)) == ascii_alnums(s),
    decreases s.len(),
{
    if s.len() > 0 && s[0] == '-' {
        lemma_trim_dash_start_alnums(s.drop_first());
        assert(s =~= seq!['-'] + s.drop_first());
        lemma_ascii_alnums_concat(seq!['-'], s.drop_first());
        assert(seq!['-'].drop_last() =~= Seq::<char>::empty());
        assert(ascii_alnums(seq!['-']) == ascii_alnums(Seq::<char>::empty()));
        assert(ascii_alnums(seq!['-']) + ascii_alnums(s.drop_first()) =~= ascii_alnums(s.drop_first()));
    }
}

proof fn lemma_trim_dash_end_alnums(s: Seq<char>)
    ensures
        ascii_alnums(trim_dash_end(s)) == ascii_alnums(s),
    decreases s.len(),
{
    if s.len() > 0 && s.last() == '-' {
        lemma_trim_dash_end_alnums(s.drop_last());
    }
}

/// A slug keeps the ASCII letters and digits of the lowercased name, all of
/// them and in order, and adds no other letter or digit; only a name
/// without any gets the `e-` hash slug.
pub proof fn law_slug_keeps_letters_and_digits(name: Seq<char>)
    ensures
        ascii_alnums(unicode_lowercase(name)).len() > 0 ==> ascii_alnums(slug_of(name)) == ascii_alnums(
            unicode_lowercase(name),
        ),
        ascii_alnums(unicode_lowercase(name)).len() == 0 ==> slug_of(name) == seq!['e', '-'] + hash6(name),
{
    let sc = slug_scan(unicode_lowercase(name));
    lemma_scan_alnums(unicode_lowercase(name));
    lemma_trim_dash_start_alnums(sc);
    lemma_trim_dash_end_alnums(trim_dash_start(sc));
    let t = trim_dash_end(trim_dash_start(sc));
    if t.len() == 0 {
        assert(t =~= Seq::<char>::empty());
        assert(ascii_alnums(t).len() == 0);
    } else {
        // A non-empty trimmed scan is made of `[a-z0-9-]` and does not start
        // with `-`, so it holds a letter or digit.
        lemma_scan_chars(unicode_lowercase(name));
        lemma_trim_dash_start(sc);
        lemma_trim_dash_end(trim_dash_start(sc));
        lemma_alnums_nonempty(t);
    }
}

proof fn lemma_alnums_nonempty(t: Seq<char>)
    requires
        t.len() > 0,
        t[0] != '-',
        forall|i: int| 0 <= i < t.len() ==> slug_char(#[trigger] t[i]),
    ensures
        ascii_alnums(t).len() > 0,
{
    assert(t =~= seq![t[0]] + t.drop_first());
    lemma_ascii_alnums_concat(seq![t[0]], t.drop_first());
    assert(slug_char(t[0]));
    let one = seq![t[0]];
    assert(one.drop_last() =~= Seq::<char>::empty());
    assert(one.last() == t[0]);
    assert(ascii_alnums(one.drop_last()).len() == 0);
    assert(ascii_alnums(one).len() == 1);
}


/// Only ASCII lowercase letters and digits.
pub open spec fn is_ascii_word(w: Seq<char>) -> bool {
    forall|i: int| 0 <= i < w.len() ==> ('a' <= #[trigger] w[i] && w[i] <= 'z') || ('0' <= w[i] && w[i] <= '9')
}

/// Only whitespace, `-` and `_`.
pub open spec fn is_separator_run(s: Seq<char>) -> bool {
    forall|i: int| 0 <= i < s.len() ==> is_ws(#[trigger] s[i]) || s[i] == '-' || s[i] == '_'
}

proof fn lemma_scan_append_word(x: Seq<char>, w: Seq<char>)
    requires
        is_ascii_word(w),
    ensures
        slug_scan(x + w) == slug_scan(x) + w,
    decreases w.len(),
{
    if w.len() == 0 {
        assert(x + w =~= x);
        assert(slug_scan(x) + w =~= slug_scan(x));
    } else {
        lemma_scan_append_word(x, w.drop_last());
        assert((x + w).drop_last() =~= x + w.drop_last());
        assert((x + w).last() == w.last());
        assert(w.last() == w[w.len() - 1]);
        assert((slug_scan(x) + w.drop_last()).push(w.last()) =~= slug_scan(x) + w);
    }
}

proof fn lemma_scan_append_separators(x: Seq<char>, s: Seq<char>)
    requires
        slug_scan(x).len() > 0,
        slug_scan(x).last() != '-',
        s.len() > 0,
        is_separator_run(s),
    ensures
        slug_scan(x + s) == slug_scan(x).push('-'),
    decreases s.len(),
{
    assert((x + s).drop_last() =~= x + s.drop_last());
    assert((x + s).last() == s.last());
    assert(s.last() == s[s.len() - 1]);
    assert(!is_slug_keep(s.last()));
    if s.len() == 1 {
        assert(x + s.drop_last() =~= x);
    } else {
        assert forall|i: int| 0 <= i < s.drop_last().len() implies is_ws(#[trigger] s.drop_last()[i])
            || s.drop_last()[i] == '-' || s.drop_last()[i] == '_' by {
            assert(s.drop_last()[i] == s[i]);
        }
        lemma_scan_append_separators(x, s.drop_last());
    }
}

/// Two words of ASCII letters and digits with a run of whitespace, `-` or
/// `_` between them make the slug `first-second`.
pub proof fn law_slug_joins_words(name: Seq<char>, w1: Seq<char>, sep: Seq<char>, w2: Seq<char>)
    requires
        unicode_lowercase(name) == w1 + sep + w2,
        w1.len() > 0,
        w2.len() > 0,
        sep.len() > 0,
        is_ascii_word(w1),
        is_ascii_word(w2),
        is_separator_run(sep),
    ensures
        slug_of(name) == w1 + seq!['-'] + w2,
{
    let e = Seq::<char>::empty();
    assert(slug_scan(e) =~= e);
    lemma_scan_append_word(e, w1);
    assert(e + w1 =~= w1);
    assert(slug_scan(w1) == w1);
    assert(w1.last() == w1[w1.len() - 1]);
    lemma_scan_append_separators(w1, sep);
    lemma_scan_append_word(w1 + sep, w2);
    assert(w1 + sep + w2 == (w1 + sep) + w2);
    let sc = w1.push('-') + w2;
    assert(sc =~= w1 + seq!['-'] + w2);
    assert(sc[0] == w1[0]);
    assert(trim_dash_start(sc) == sc);
    assert(sc.last() == w2[w2.len() - 1]);
    assert(trim_dash_end(sc) == sc);
}

} // verus!
