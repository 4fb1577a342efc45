//! The wiki as it lies on disk: frontmatter read back from page files, the
//! index rebuilt from the pages found, which pages a compile may replace or
//! remove, and safe page and archive paths.

use vstd::prelude::*;

use crate::cursor::{path_components, components_of};
use crate::ingest::{document_of, document_view, Document};
use crate::insights::InsightsError;
use crate::lark::last_piece;
use crate::order::{key_sorted, sort_by_key, sorted_by_key, Keyed};
use crate::text::{
    chars_of, contains, contains_exec, contains_str, find, first_match_from, join, join_chars,
    lemma_views_push, lines, lines_of, push_all, push_str, slice, starts_with, starts_with_exec,
    str_eq, string_from, string_of, string_views, trim, trim_chars, views,
};
use crate::wiki::{link, wikilink};

verus! {

broadcast use vstd::seq::group_seq_axioms;

// ---------------------------------------------------------------------------
// Frontmatter
// ---------------------------------------------------------------------------

/// `s` without leading and trailing `'\n'` (`trim_matches('\n')`).
pub open spec fn trim_newlines(s: Seq<char>) -> Seq<char>
    decreases s.len(),
{
    if s.len() > 0 && s[0] == '\n' {
        trim_newlines(s.drop_first())
    } else if s.len() > 0 && s.last() == '\n' {
        trim_newlines(s.drop_last())
    } else {
        s
    }
}

/// The frontmatter of a page: after a leading `---`, the text up to the next
/// `\n---`, without surrounding newlines.
pub open spec fn frontmatter_of(raw: Seq<char>) -> Option<Seq<char>> {
    if !starts_with(raw, "---"@) {
        None
    } else {
        match first_match_from(raw.skip(3), "\n---"@, 0) {
            Some(end) => Some(trim_newlines(raw.subrange(3, 3 + end))),
            None => None,
        }
    }
}

fn trim_newlines_exec(s: &[char]) -> (r: Vec<char>)
    ensures
        r@ == trim_newlines(s@),
{
    let mut a: usize = 0;
    let mut b: usize = s.len();
    assert(s@.subrange(0, s@.len() as int) =~= s@);
    while a < b && (s[a] == '\n' || s[b - 1] == '\n')
        invariant
            a <= b <= s@.len(),
            trim_newlines(s@) == trim_newlines(s@.subrange(a as int, b as int)),
        decreases b - a,
    {
        if s[a] == '\n' {
            assert(s@.subrange(a as int, b as int).drop_first() =~= s@.subrange(a + 1, b as int));
            a = a + 1;
        } else {
            assert(s@.subrange(a as int, b as int).drop_last() =~= s@.subrange(a as int, b - 1));
            b = b - 1;
        }
    }
    slice(s, a, b)
}

/// The frontmatter of a page file's text.
pub fn peek_frontmatter(raw: &str) -> (r: Option<Vec<char>>)
    ensures
        match r {
            Some(f) => frontmatter_of(raw@) == Some(f@),
            None => frontmatter_of(raw@) is None,
        },
{
    let c = chars_of(raw);
    let dashes = chars_of("---");
    let close = chars_of("\n---");
    proof {
        reveal_strlit("---");
    }
    if !starts_with_exec(&c, &dashes) {
        return None;
    }
    let rest = slice(&c, 3, c.len());
    assert(rest@ =~= raw@.skip(3));
    match find(&rest, &close) {
        Some(end) => {
            let inner = slice(&c, 3, 3 + end);
            Some(trim_newlines_exec(&inner))
        },
        None => None,
    }
}

/// Some line of `ls`, trimmed, is `generated: true` or `generated:true`.
pub open spec fn marks_generated(ls: Seq<Seq<char>>) -> bool {
    exists|k: int| 0 <= k < ls.len() && (trim(#[trigger] ls[k]) == "generated: true"@ || trim(ls[k]) == "generated:true"@)
}

/// A page is generated when its frontmatter says so.
pub open spec fn is_generated(raw: Seq<char>) -> bool {
    match frontmatter_of(raw) {
        Some(f) => marks_generated(lines(f)),
        None => false,
    }
}

pub fn frontmatter_is_generated(raw: &str) -> (b: bool)
    ensures
        b == is_generated(raw@),
{
    let front = match peek_frontmatter(raw) {
        Some(f) => f,
        None => return false,
    };
    let ls = lines_of(&front);
    let ghost lsv = views(ls@);
    let mut found = false;
    let mut i: usize = 0;
    while i < ls.len() && !found
        invariant
            i <= ls@.len(),
            lsv == views(ls@),
            found ==> marks_generated(lsv),
            !found ==> forall|k: int| 0 <= k < i ==> !(trim(#[trigger] lsv[k]) == "generated: true"@ || trim(lsv[k]) == "generated:true"@),
        decreases ls.len() - i,
    {
        let t = string_of(&trim_chars(&ls[i]));
        assert(lsv[i as int] == ls@[i as int]@);
        assert(trim(lsv[i as int]) == t@);
        if str_eq(t.as_str(), "generated: true") || str_eq(t.as_str(), "generated:true") {
            found = true;
        }
        i = i + 1;
    }
    found
}

/// Some frontmatter line, trimmed, starts with `sources:` and holds the
/// quoted URI.
pub open spec fn lists_source(ls: Seq<Seq<char>>, uri: Seq<char>) -> bool {
    exists|k: int|
        0 <= k < ls.len() && starts_with(trim(#[trigger] ls[k]), "sources:"@) && contains(
            trim(ls[k]),
            seq!['"'] + uri + seq!['"'],
        )
}

pub open spec fn sources_contain(raw: Seq<char>, uri: Seq<char>) -> bool {
    match frontmatter_of(raw) {
        Some(f) => lists_source(lines(f), uri),
        None => false,
    }
}

pub fn frontmatter_sources_contains(raw: &str, source_uri: &str) -> (b: bool)
    ensures
        b == sources_contain(raw@, source_uri@),
{
    let front = match peek_frontmatter(raw) {
        Some(f) => f,
        None => return false,
    };
    let mut needle: Vec<char> = Vec::new();
    needle.push('"');
    push_str(&mut needle, source_uri);
    needle.push('"');
    assert(needle@ =~= seq!['"'] + source_uri@ + seq!['"']);
    let key = chars_of("sources:");
    let ls = lines_of(&front);
    let ghost lsv = views(ls@);
    let ghost q = seq!['"'] + source_uri@ + seq!['"'];
    let mut found = false;
    let mut i: usize = 0;
    while i < ls.len() && !found
        invariant
            i <= ls@.len(),
            lsv == views(ls@),
            key@ == "sources:"@,
            needle@ == q,
            q == seq!['"'] + source_uri@ + seq!['"'],
            found ==> lists_source(lsv, source_uri@),
            !found ==> forall|k: int| 0 <= k < i ==> !(starts_with(trim(#[trigger] lsv[k]), "sources:"@) && contains(trim(lsv[k]), q)),
        decreases ls.len() - i,
    {
        let t = trim_chars(&ls[i]);
        assert(lsv[i as int] == ls@[i as int]@);
        assert(trim(lsv[i as int]) == t@);
        if starts_with_exec(&t, &key) && contains_exec(&t, &needle) {
            assert(0 <= i < lsv.len());
            assert(starts_with(trim(lsv[i as int]), "sources:"@) && contains(trim(lsv[i as int]), q));
            assert(lists_source(lsv, source_uri@));
            found = true;
        }
        i = i + 1;
    }
    found
}

/// Every non-overlapping occurrence of `pat`, left to right, replaced by
/// `rep` (`str::replace`).
pub open spec fn replace_all(s: Seq<char>, pat: Seq<char>, rep: Seq<char>) -> Seq<char>
    decreases s.len(),
{
    if s.len() == 0 {
        Seq::empty()
    } else if pat.len() > 0 && starts_with(s, pat) {
        rep + replace_all(s.skip(pat.len() as int), pat, rep)
    } else {
        seq![s[0]] + replace_all(s.drop_first(), pat, rep)
    }
}

fn replace_all_exec(s: &[char], pat: &[char], rep: &[char]) -> (r: Vec<char>)
    requires
        pat@.len() > 0,
    ensures
        r@ == replace_all(s@, pat@, rep@),
{
    let mut out: Vec<char> = Vec::new();
    let mut i: usize = 0;
    assert(s@.skip(0) =~= s@);
    while i < s.len()
        invariant
            i <= s@.len(),
            pat@.len() > 0,
            out@ + replace_all(s@.skip(i as int), pat@, rep@) == replace_all(s@, pat@, rep@),
        decreases s.len() - i,
    {
        let rest = slice(s, i, s.len());
        assert(rest@ =~= s@.skip(i as int));
        if starts_with_exec(&rest, pat) {
            assert(s@.skip(i as int).skip(pat@.len() as int) =~= s@.skip(i + pat@.len()));
            push_all(&mut out, rep);
            i = i + pat.len();
            assert(out@ + replace_all(s@.skip(i as int), pat@, rep@) =~= replace_all(s@, pat@, rep@));
        } else {
            assert(s@.skip(i as int).drop_first() =~= s@.skip(i + 1));
            assert(s@.skip(i as int)[0] == s@[i as int]);
            out.push(s[i]);
            i = i + 1;
            assert(out@ + replace_all(s@.skip(i as int), pat@, rep@) =~= replace_all(s@, pat@, rep@));
        }
    }
    assert(replace_all(s@.skip(i as int), pat@, rep@) =~= Seq::<char>::empty());
    assert(out@ =~= replace_all(s@, pat@, rep@));
    out
}

/// A `title:` value as written by the frontmatter writer: a quoted value
/// loses its quotes and its escapes.
pub open spec fn unquoted(v: Seq<char>) -> Seq<char> {
    if v.len() >= 2 && v[0] == '"' && v.last() == '"' {
        replace_all(replace_all(v.subrange(1, v.len() - 1), "\\\""@, "\""@), "\\\\"@, "\\"@)
    } else {
        v
    }
}

/// The part of a line before its first `:` and the part after it.
pub open spec fn split_colon(l: Seq<char>) -> Option<(Seq<char>, Seq<char>)> {
    match first_match_from(l, seq![':'], 0) {
        Some(i) => Some((l.take(i), l.skip(i + 1))),
        None => None,
    }
}

/// The first non-empty title among the `title:` lines.
pub open spec fn title_line(ls: Seq<Seq<char>>) -> Option<Seq<char>>
    decreases ls.len(),
{
    if ls.len() == 0 {
        None
    } else {
        match split_colon(ls[0]) {
            Some(kv) => if trim(kv.0) == "title"@ && unquoted(trim(kv.1)).len() > 0 {
                Some(unquoted(trim(kv.1)))
            } else {
                title_line(ls.drop_first())
            },
            None => title_line(ls.drop_first()),
        }
    }
}

/// A page's title: from its frontmatter, else the last segment of its slug.
pub open spec fn page_title(raw: Seq<char>, slug: Seq<char>) -> Seq<char> {
    let from_front = match frontmatter_of(raw) {
        Some(f) => title_line(lines(f)),
        None => None,
    };
    match from_front {
        Some(t) => t,
        None => last_piece(slug),
    }
}

fn unquoted_exec(v: &[char]) -> (r: Vec<char>)
    ensures
        r@ == unquoted(v@),
{
    if v.len() >= 2 && v[0] == '"' && v[v.len() - 1] == '"' {
        let inner = slice(v, 1, v.len() - 1);
        let q1 = chars_of("\\\"");
        let r1 = chars_of("\"");
        let q2 = chars_of("\\\\");
        let r2 = chars_of("\\");
        proof {
            reveal_strlit("\\\"");
            reveal_strlit("\\\\");
        }
        let a = replace_all_exec(&inner, &q1, &r1);
        replace_all_exec(&a, &q2, &r2)
    } else {
        slice(v, 0, v.len())
    }
}

#[verifier::rlimit(50)]
fn title_from_lines(ls: &Vec<Vec<char>>) -> (r: Option<Vec<char>>)
    ensures
        match r {
            Some(t) => title_line(views(ls@)) == Some(t@),
            None => title_line(views(ls@)) is None,
        },
{
    let colon = chars_of(":");
    proof {
        reveal_strlit(":");
        assert(colon@ =~= seq![':']);
    }
    let mut i: usize = 0;
    assert(views(ls@).skip(0) =~= views(ls@));
    while i < ls.len()
        invariant
            i <= ls@.len(),
            colon@ == seq![':'],
            title_line(views(ls@)) == title_line(views(ls@).skip(i as int)),
        decreases ls.len() - i,
    {
        assert(views(ls@).skip(i as int).drop_first() =~= views(ls@).skip(i + 1));
        assert(views(ls@).skip(i as int)[0] == ls@[i as int]@);
        let l = &ls[i];
        let n = l.len();
        match find(l, &colon) {
            Some(p) => {
                assert(crate::text::matches_at(l@, colon@, p as int));
                let k = trim_chars(&slice(l, 0, p));
                let v = trim_chars(&slice(l, p + 1, n));
                let kt = string_of(&k);
                if str_eq(kt.as_str(), "title") {
                    let t = unquoted_exec(&v);
                    if t.len() > 0 {
                        return Some(t);
                    }
                }
            },
            None => {},
        }
        i = i + 1;
    }
    None
}

/// The title of a page file.
pub fn title_from_frontmatter_or_slug(raw: &str, slug: &str) -> (r: String)
    ensures
        r@ == page_title(raw@, slug@),
{
    if let Some(front) = peek_frontmatter(raw) {
        let ls = lines_of(&front);
        if let Some(t) = title_from_lines(&ls) {
            return string_of(&t);
        }
    }
    let s = chars_of(slug);
    let mut start = s.len();
    assert(s@.take(s@.len() as int) =~= s@);
    while start > 0 && s[start - 1] != '/'
        invariant
            start <= s@.len(),
            last_piece(s@) == last_piece(s@.take(start as int)) + s@.subrange(start as int, s@.len() as int),
        decreases start,
    {
        assert(s@.take(start as int).drop_last() =~= s@.take(start - 1));
        assert(s@.subrange(start - 1, s@.len() as int) =~= seq![s@[start - 1]] + s@.subrange(start as int, s@.len() as int));
        start = start - 1;
    }
    assert(last_piece(s@.take(start as int)) =~= Seq::<char>::empty());
    string_of(&slice(&s, start, s.len()))
}

// ---------------------------------------------------------------------------
// The index from disk
// ---------------------------------------------------------------------------

/// A page found on disk: its slug and title.
#[derive(Debug, Clone, PartialEq)]
pub struct IndexEntry {
    pub slug: String,
    pub title: String,
}

impl Keyed for IndexEntry {
    open spec fn key_of(&self) -> Seq<char> {
        self.slug@
    }

    fn key(&self) -> (r: &str) {
        self.slug.as_str()
    }
}

/// The entry of a page file found under `dir` with file stem `stem`: none
/// when the stem could climb out of the directory.
pub open spec fn scan_entry_of(dir: Seq<char>, stem: Seq<char>, raw: Seq<char>) -> Option<(Seq<char>, Seq<char>)> {
    if contains(stem, ".."@) || contains(stem, seq!['/']) || contains(stem, seq!['\\']) {
        None
    } else {
        let slug = dir + seq!['/'] + stem;
        Some((slug, page_title(raw, slug)))
    }
}

/// The slug `dir/stem` of a page file, or none when the stem could climb out
/// of the directory.
pub open spec fn page_slug_of(dir: Seq<char>, stem: Seq<char>) -> Option<Seq<char>> {
    if contains(stem, ".."@) || contains(stem, seq!['/']) || contains(stem, seq!['\\']) {
        None
    } else {
        Some(dir + seq!['/'] + stem)
    }
}

pub fn page_slug(dir_name: &str, stem: &str) -> (r: Option<String>)
    ensures
        match r {
            Some(s) => page_slug_of(dir_name@, stem@) == Some(s@),
            None => page_slug_of(dir_name@, stem@) is None,
        },
{
    let st = chars_of(stem);
    let dd = chars_of("..");
    let sl = chars_of("/");
    let bs = chars_of("\\");
    proof {
        reveal_strlit("/");
        reveal_strlit("\\");
        assert(sl@ =~= seq!['/']);
        assert(bs@ =~= seq!['\\']);
    }
    if contains_exec(&st, &dd) || contains_exec(&st, &sl) || contains_exec(&st, &bs) {
        return None;
    }
    let mut slug = chars_of(dir_name);
    slug.push('/');
    push_all(&mut slug, &st);
    Some(string_of(&slug))
}

pub fn scan_entry(dir_name: &str, stem: &str, raw: &str) -> (r: Option<IndexEntry>)
    ensures
        match r {
            Some(e) => scan_entry_of(dir_name@, stem@, raw@) == Some((e.slug@, e.title@)),
            None => scan_entry_of(dir_name@, stem@, raw@) is None,
        },
{
    let st = chars_of(stem);
    let dd = chars_of("..");
    let sl = chars_of("/");
    let bs = chars_of("\\");
    proof {
        reveal_strlit("/");
        reveal_strlit("\\");
        assert(sl@ =~= seq!['/']);
        assert(bs@ =~= seq!['\\']);
    }
    if contains_exec(&st, &dd) || contains_exec(&st, &sl) || contains_exec(&st, &bs) {
        return None;
    }
    let mut slug = chars_of(dir_name);
    slug.push('/');
    push_all(&mut slug, &st);
    let slug_s = string_of(&slug);
    let title = title_from_frontmatter_or_slug(raw, slug_s.as_str());
    Some(IndexEntry { slug: slug_s, title })
}

pub open spec fn entry_pairs(es: Seq<IndexEntry>) -> Seq<(Seq<char>, Seq<char>)> {
    es.map_values(|e: IndexEntry| (e.slug@, e.title@))
}

/// The bullets `- [[slug|title]]` of a section.
pub open spec fn entry_bullets(es: Seq<(Seq<char>, Seq<char>)>) -> Seq<char>
    decreases es.len(),
{
    if es.len() == 0 {
        Seq::empty()
    } else {
        entry_bullets(es.drop_last()) + "- "@ + link(es.last().0, es.last().1) + seq!['\n']
    }
}

pub open spec fn disk_section(header: Seq<char>, es: Seq<(Seq<char>, Seq<char>)>) -> Seq<char> {
    if es.len() == 0 {
        Seq::empty()
    } else {
        header + entry_bullets(es)
    }
}

/// The index of the pages found on disk, each section in the given order.
pub open spec fn disk_index(
    sources: Seq<(Seq<char>, Seq<char>)>,
    entities: Seq<(Seq<char>, Seq<char>)>,
    concepts: Seq<(Seq<char>, Seq<char>)>,
) -> Seq<char> {
    "# Wiki\n"@ + disk_section("\n## Sources\n"@, sources) + disk_section("\n## Entities\n"@, entities)
        + disk_section("\n## Concepts\n"@, concepts)
}

fn push_disk_section(out: &mut Vec<char>, header: &str, es: &Vec<IndexEntry>)
    ensures
        final(out)@ == old(out)@ + disk_section(header@, entry_pairs(es@)),
{
    if es.len() == 0 {
        assert(out@ =~= old(out)@ + disk_section(header@, entry_pairs(es@)));
        return;
    }
    push_str(out, header);
    let ghost base = out@;
    let mut i: usize = 0;
    while i < es.len()
        invariant
            i <= es@.len(),
            out@ == base + entry_bullets(entry_pairs(es@).take(i as int)),
        decreases es.len() - i,
    {
        proof {
            assert(entry_pairs(es@).take(i + 1).drop_last() =~= entry_pairs(es@).take(i as int));
            assert(entry_pairs(es@).take(i + 1).last() == (es@[i as int].slug@, es@[i as int].title@));
        }
        push_str(out, "- ");
        let l = wikilink(es[i].slug.as_str(), es[i].title.as_str());
        push_str(out, l.as_str());
        out.push('\n');
        i = i + 1;
        assert(out@ =~= base + entry_bullets(entry_pairs(es@).take(i as int)));
    }
    assert(entry_pairs(es@).take(es@.len() as int) =~= entry_pairs(es@));
}

/// The wiki index rebuilt from the pages found on disk: each section sorted
/// by slug, empty sections left out.
pub fn index_md_from_entries(sources: Vec<IndexEntry>, entities: Vec<IndexEntry>, concepts: Vec<IndexEntry>) -> (r: String)
    ensures
        r@ == disk_index(
            entry_pairs(key_sorted(sources@)),
            entry_pairs(key_sorted(entities@)),
            entry_pairs(key_sorted(concepts@)),
        ),
{
    let s = sort_by_key(sources);
    let e = sort_by_key(entities);
    let c = sort_by_key(concepts);
    let mut out = chars_of("# Wiki\n");
    push_disk_section(&mut out, "\n## Sources\n", &s);
    push_disk_section(&mut out, "\n## Entities\n", &e);
    push_disk_section(&mut out, "\n## Concepts\n", &c);
    assert(out@ =~= disk_index(entry_pairs(s@), entry_pairs(e@), entry_pairs(c@)));
    string_of(&out)
}

// ---------------------------------------------------------------------------
// Replacing and removing pages
// ---------------------------------------------------------------------------

/// The document a written wiki page is indexed as: `wiki://<slug>`, titled
/// from its frontmatter (or its slug).
pub fn wiki_page_document(slug: &str, text: &str) -> (r: Document)
    ensures
        r@ == document_view("wiki://"@ + slug@, page_title(text@, slug@), text@),
{
    let mut uri = chars_of("wiki://");
    push_str(&mut uri, slug);
    let title = title_from_frontmatter_or_slug(text, slug);
    document_of(string_of(&uri).as_str(), title.as_str(), text)
}

/// A compile may overwrite a page file only if it is missing or generated:
/// hand-edited notes are kept.
pub fn may_overwrite(existing: Option<&str>) -> (b: bool)
    ensures
        b == match existing {
            Some(raw) => is_generated(raw@),
            None => true,
        },
{
    match existing {
        Some(raw) => frontmatter_is_generated(raw),
        None => true,
    }
}

/// A page is stale for a compile when this compile did not write it, it is
/// generated, and it lists the compiled source.
pub open spec fn is_stale(slug: Seq<char>, current: Seq<Seq<char>>, raw: Seq<char>, uri: Seq<char>) -> bool {
    !current.contains(slug) && is_generated(raw) && sources_contain(raw, uri)
}

pub fn is_stale_page(slug: &str, current_slugs: &[String], raw: &str, source_uri: &str) -> (b: bool)
    ensures
        b == is_stale(slug@, string_views(current_slugs@), raw@, source_uri@),
{
    !contains_str(current_slugs, slug) && frontmatter_is_generated(raw) && frontmatter_sources_contains(
        raw,
        source_uri,
    )
}

/// A compile never removes a page a user wrote: a stale page is generated.
pub proof fn law_stale_pages_are_generated(slug: Seq<char>, current: Seq<Seq<char>>, raw: Seq<char>, uri: Seq<char>)
    requires
        is_stale(slug, current, raw, uri),
    ensures
        is_generated(raw),
        !current.contains(slug),
{
}

// ---------------------------------------------------------------------------
// Paths
// ---------------------------------------------------------------------------

/// A slug that stays inside the wiki: not absolute, no `..` piece, and not
/// starting at `.`.
pub open spec fn safe_slug(slug: Seq<char>) -> bool {
    let pieces = crate::text::split_char(slug, '/');
    &&& !starts_with(slug, seq!['/'])
    &&& !pieces.contains(".."@)
    &&& pieces[0] != "."@
}

/// The file of a page: `<root>/<slug>.md`.
pub open spec fn page_file(root: Seq<char>, slug: Seq<char>) -> Seq<char> {
    if root.len() == 0 || root.last() == '/' {
        root + slug + ".md"@
    } else {
        root + seq!['/'] + slug + ".md"@
    }
}

fn pieces_safe(slug: &str) -> (b: bool)
    ensures
        b == safe_slug(slug@),
{
    let c = chars_of(slug);
    proof {
        reveal_strlit("..");
        reveal_strlit(".");
        crate::text::lemma_split_char_len(slug@, '/');
    }
    if c.len() > 0 && c[0] == '/' {
        assert(starts_with(slug@, seq!['/'])) by {
            assert(slug@.subrange(0, 1) =~= seq!['/']);
        }
        return false;
    }
    assert(!starts_with(slug@, seq!['/'])) by {
        if slug@.len() > 0 {
            assert(slug@.subrange(0, 1)[0] == slug@[0]);
        }
    }
    let parts = crate::cursor::split_pieces(&c);
    let mut i: usize = 0;
    while i < parts.len()
        invariant
            i <= parts@.len(),
            views(parts@) == crate::text::split_char(slug@, '/'),
            forall|k: int| 0 <= k < i ==> views(parts@)[k] != ".."@,
        decreases parts.len() - i,
    {
        let p = &parts[i];
        assert(views(parts@)[i as int] == p@);
        proof {
            reveal_strlit("..");
        }
        if p.len() == 2 && p[0] == '.' && p[1] == '.' {
            assert(p@ =~= ".."@);
            return false;
        }
        assert(p@ != ".."@);
        i = i + 1;
    }
    assert(!views(parts@).contains(".."@));
    let first = &parts[0];
    assert(views(parts@)[0] == first@);
    proof {
        reveal_strlit(".");
    }
    if first.len() == 1 && first[0] == '.' {
        assert(first@ =~= "."@);
        return false;
    }
    assert(first@ != "."@);
    true
}

/// The file of a page, refused when its slug could leave the wiki.
pub fn resolve_wiki_page_path(wiki_root: &str, slug: &str) -> (r: Result<String, InsightsError>)
    ensures
        safe_slug(slug@) ==> (r matches Ok(p) && p@ == page_file(wiki_root@, slug@)),
        !safe_slug(slug@) ==> (r matches Err(InsightsError::Io(m)) && m@ == "unsafe wiki slug: "@ + slug@),
{
    if !pieces_safe(slug) {
        let mut m = chars_of("unsafe wiki slug: ");
        push_str(&mut m, slug);
        return Err(InsightsError::Io(string_of(&m)));
    }
    let mut out = chars_of(wiki_root);
    if !(out.len() == 0 || out[out.len() - 1] == '/') {
        out.push('/');
    }
    push_str(&mut out, slug);
    push_str(&mut out, ".md");
    assert(out@ =~= page_file(wiki_root@, slug@));
    Ok(string_of(&out))
}

/// The components of `abs` after those of `root`, when `root`'s are a
/// prefix of them and both are absolute or both relative
/// (`Path::strip_prefix`).
pub open spec fn relative_components(root: Seq<char>, abs: Seq<char>) -> Option<Seq<Seq<char>>> {
    let rc = path_components(root);
    let ac = path_components(abs);
    if starts_with(root, seq!['/']) == starts_with(abs, seq!['/']) && rc.len() <= ac.len() && ac.take(
        rc.len() as int,
    ) == rc {
        Some(ac.skip(rc.len() as int))
    } else {
        None
    }
}

/// The archive name of a file under the wiki: its components after the
/// wiki's, joined by `/`; none may be `..`.
pub open spec fn zip_entry_name(root: Seq<char>, abs: Seq<char>) -> Result<Seq<char>, Seq<char>> {
    match relative_components(root, abs) {
        None => Err("path outside wiki_root"@),
        Some(cs) => if cs.len() == 0 {
            Err("empty relative path"@)
        } else if cs.contains(".."@) {
            Err("unsafe zip entry path: "@ + join(cs, "/"@))
        } else {
            Ok(join(cs, "/"@))
        },
    }
}

fn starts_with_slash(s: &[char]) -> (b: bool)
    ensures
        b == starts_with(s@, seq!['/']),
{
    if s.len() > 0 && s[0] == '/' {
        assert(s@.subrange(0, 1) =~= seq!['/']);
        true
    } else {
        proof {
            if s@.len() > 0 {
                assert(s@.subrange(0, 1)[0] == s@[0]);
            }
        }
        false
    }
}

fn relative_components_exec(root: &str, abs: &str) -> (r: Option<Vec<Vec<char>>>)
    ensures
        match r {
            Some(cs) => relative_components(root@, abs@) == Some(views(cs@)),
            None => relative_components(root@, abs@) is None,
        },
{
    let rc = components_of(root);
    let ac = components_of(abs);
    if starts_with_slash(&chars_of(root)) != starts_with_slash(&chars_of(abs)) || rc.len() > ac.len() {
        return None;
    }
    let mut i: usize = 0;
    while i < rc.len()
        invariant
            i <= rc@.len() <= ac@.len(),
            views(rc@) == path_components(root@),
            views(ac@) == path_components(abs@),
            starts_with(root@, seq!['/']) == starts_with(abs@, seq!['/']),
            forall|k: int| 0 <= k < i ==> views(rc@)[k] == views(ac@)[k],
        decreases rc.len() - i,
    {
        assert(views(rc@)[i as int] == rc@[i as int]@);
        assert(views(ac@)[i as int] == ac@[i as int]@);
        if !crate::text::chars_eq(&rc[i], &ac[i]) {
            assert(views(ac@).take(rc@.len() as int)[i as int] != views(rc@)[i as int]);
            return None;
        }
        i = i + 1;
    }
    assert(views(ac@).take(rc@.len() as int) =~= views(rc@));
    let mut out: Vec<Vec<char>> = Vec::new();
    let mut j = rc.len();
    while j < ac.len()
        invariant
            rc@.len() <= j <= ac@.len(),
            views(out@) == views(ac@).subrange(rc@.len() as int, j as int),
        decreases ac.len() - j,
    {
        let c = slice(&ac[j], 0, ac[j].len());
        proof {
            lemma_views_push(out@, c);
            assert(c@ =~= ac@[j as int]@);
            assert(views(ac@).subrange(rc@.len() as int, j + 1) =~= views(ac@).subrange(rc@.len() as int, j as int).push(c@));
        }
        out.push(c);
        j = j + 1;
    }
    assert(views(ac@).subrange(rc@.len() as int, ac@.len() as int) =~= views(ac@).skip(rc@.len() as int));
    Some(out)
}

/// The archive name of a file under the wiki.
pub fn relative_zip_entry_name(wiki_root: &str, abs: &str) -> (r: Result<String, InsightsError>)
    ensures
        match r {
            Ok(n) => zip_entry_name(wiki_root@, abs@) == Ok::<Seq<char>, Seq<char>>(n@),
            Err(InsightsError::Io(m)) => zip_entry_name(wiki_root@, abs@) == Err::<Seq<char>, Seq<char>>(m@),
            Err(_) => false,
        },
{
    let cs = match relative_components_exec(wiki_root, abs) {
        Some(cs) => cs,
        None => return Err(InsightsError::Io(string_from("path outside wiki_root"))),
    };
    if cs.len() == 0 {
        return Err(InsightsError::Io(string_from("empty relative path")));
    }
    let joined = join_chars(&cs, "/");
    let mut i: usize = 0;
    while i < cs.len()
        invariant
            i <= cs@.len(),
            cs@.len() > 0,
            relative_components(wiki_root@, abs@) == Some(views(cs@)),
            joined@ == join(views(cs@), "/"@),
            forall|k: int| 0 <= k < i ==> views(cs@)[k] != ".."@,
        decreases cs.len() - i,
    {
        let p = &cs[i];
        assert(views(cs@)[i as int] == p@);
        proof {
            reveal_strlit("..");
        }
        if p.len() == 2 && p[0] == '.' && p[1] == '.' {
            assert(p@ =~= ".."@);
            assert(views(cs@).contains(".."@));
            let mut m = chars_of("unsafe zip entry path: ");
            push_all(&mut m, &joined);
            return Err(InsightsError::Io(string_of(&m)));
        }
        assert(p@ != ".."@);
        i = i + 1;
    }
    assert(!views(cs@).contains(".."@));
    Ok(string_of(&joined))
}

/// The settings file every exported vault carries, in place of the wiki's own.
pub const OBSIDIAN_STUB_ENTRY: &'static str = ".obsidian/app.json";

/// The body of the exported settings file.
pub const OBSIDIAN_STUB_BODY: &'static str = "{\"legacyEditor\":false}";

/// A path under the wiki's own `.obsidian` directory.
pub open spec fn under_obsidian(root: Seq<char>, path: Seq<char>) -> bool {
    match relative_components(root, path) {
        Some(cs) => cs.len() > 0 && cs[0] == ".obsidian"@,
        None => false,
    }
}

pub fn is_under_ondisk_obsidian(wiki_root: &str, path: &str) -> (b: bool)
    ensures
        b == under_obsidian(wiki_root@, path@),
{
    match relative_components_exec(wiki_root, path) {
        Some(cs) => {
            if cs.len() == 0 {
                return false;
            }
            assert(views(cs@)[0] == cs@[0]@);
            let s = string_of(&cs[0]);
            str_eq(s.as_str(), ".obsidian")
        },
        None => false,
    }
}

} // verus!
