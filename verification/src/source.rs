//! Source ownership shared by file diagnostics, code generation, and tooling.
use vstd::prelude::*;
use vstd::string::StringSliceAdditionalSpecFns;
use vstd::utf8::encode_utf8;

use crate::diagnostic::{
    Diagnostic, count_char_starts, count_char_starts_in, count_newlines, floor_boundary,
    line_column, line_start_before, rendered,
};
use crate::text::{decimal, has_prefix, lemma_prefix_of_concat, owned, push_str};

verus! {

#[derive(Clone, Copy, Debug, Default, PartialEq, Eq, Hash, Structural)]
pub struct SourceId(pub usize);

impl SourceId {
    /// The identifier of the first (or only) file.
    pub fn default_id() -> (id: SourceId)
        ensures
            id == SourceId(0),
    {
        SourceId(0)
    }
}

/// Offsets where the lines of `b[0..n]` begin: zero, and one past every newline.
pub open spec fn line_starts_upto(b: Seq<u8>, n: int) -> Seq<usize>
    decreases n,
{
    if n <= 0 {
        seq![0usize]
    } else if b[n - 1] == 0x0Au8 {
        line_starts_upto(b, n - 1).push(n as usize)
    } else {
        line_starts_upto(b, n - 1)
    }
}

#[derive(Debug)]
pub struct SourceFile {
    path: String,
    text: String,
    line_starts: Vec<usize>,
}

impl SourceFile {
    #[verifier::type_invariant]
    spec fn wf(self) -> bool {
        &&& encode_utf8(self.text@).len() < usize::MAX
        &&& self.line_starts@ == line_starts_upto(
            encode_utf8(self.text@),
            encode_utf8(self.text@).len() as int,
        )
    }

    pub closed spec fn path_view(self) -> Seq<char> {
        self.path@
    }

    pub closed spec fn text_bytes(self) -> Seq<u8> {
        encode_utf8(self.text@)
    }

    pub closed spec fn text_view(self) -> Seq<char> {
        self.text@
    }

    pub fn path(&self) -> (path: &str)
        ensures
            path@ == self.path_view(),
    {
        self.path.as_str()
    }

    pub fn text(&self) -> (text: &str)
        ensures
            text@ == self.text_view(),
            text.spec_bytes() == self.text_bytes(),
            text.spec_bytes().len() < usize::MAX,
    {
        proof {
            use_type_invariant(self);
        }
        self.text.as_str()
    }

    /// One-based line and Unicode character column for a byte offset.
    pub fn location(&self, offset: usize) -> (position: (usize, usize))
        ensures
            position.0 as nat == line_column(self.text_bytes(), offset as int).0,
            position.1 as nat == line_column(self.text_bytes(), offset as int).1,
    {
        proof {
            use_type_invariant(self);
        }
        let text = self.text.as_str();
        let bytes = text.as_bytes();
        let ghost b = bytes@;
        let clamped = if offset < bytes.len() {
            offset
        } else {
            bytes.len()
        };
        let start = crate::diagnostic::floor_char_boundary(text, clamped);
        proof {
            vstd::utf8::encode_utf8_valid_utf8(text@);
            crate::diagnostic::lemma_floor_boundary_range(b, clamped as int);
            lemma_line_starts_split(b, start as int, b.len() as int);
            lemma_line_starts_shape(b, start as int);
            lemma_line_starts_len(b, start as int);
            lemma_line_starts_last(b, start as int);
        }
        let ghost prefix = line_starts_upto(b, start as int);
        // Binary search for the number of line starts at or before `start`.
        let mut low: usize = 0;
        let mut high: usize = self.line_starts.len();
        while low < high
            invariant
                low <= high <= self.line_starts@.len(),
                self.line_starts@ == line_starts_upto(b, b.len() as int),
                prefix.len() <= self.line_starts@.len(),
                prefix == self.line_starts@.subrange(0, prefix.len() as int),
                forall|k: int| 0 <= k < prefix.len() ==> prefix[k] <= start,
                forall|k: int|
                    prefix.len() <= k < self.line_starts@.len() ==> self.line_starts@[k] > start,
                low <= prefix.len() <= high,
            decreases high - low,
        {
            let middle = low + (high - low) / 2;
            proof {
                if middle < prefix.len() {
                    assert(self.line_starts@[middle as int] == prefix[middle as int]);
                }
            }
            if self.line_starts[middle] <= start {
                low = middle + 1;
            } else {
                high = middle;
            }
        }
        let line = low - 1;
        let line_start = self.line_starts[line];
        let column = count_char_starts_in(bytes, line_start, start);
        (line + 1, column + 1)
    }
}

proof fn lemma_line_starts_len(b: Seq<u8>, n: int)
    requires
        0 <= n <= b.len(),
        b.len() < usize::MAX,
    ensures
        line_starts_upto(b, n).len() == count_newlines(b.subrange(0, n)) + 1,
    decreases n,
{
    if n > 0 {
        lemma_line_starts_len(b, n - 1);
        assert(b.subrange(0, n).drop_last() == b.subrange(0, n - 1));
    }
}

proof fn lemma_line_starts_shape(b: Seq<u8>, n: int)
    requires
        0 <= n <= b.len(),
        b.len() < usize::MAX,
    ensures
        forall|k: int|
            0 <= k < line_starts_upto(b, n).len() ==> #[trigger] line_starts_upto(b, n)[k] <= n,
        line_starts_upto(b, n).len() >= 1,
        line_starts_upto(b, n)[0] == 0,
    decreases n,
{
    if n > 0 {
        lemma_line_starts_shape(b, n - 1);
        let p = line_starts_upto(b, n - 1);
        if b[n - 1] == 0x0Au8 {
            assert(line_starts_upto(b, n) == p.push(n as usize));
            assert(p.push(n as usize)[0] == p[0]);
        }
    }
}

proof fn lemma_line_starts_last(b: Seq<u8>, n: int)
    requires
        0 <= n <= b.len(),
        b.len() < usize::MAX,
    ensures
        line_starts_upto(b, n).last() == line_start_before(b, n),
    decreases n,
{
    lemma_line_starts_shape(b, n);
    if n > 0 {
        lemma_line_starts_last(b, n - 1);
        lemma_line_starts_shape(b, n - 1);
    }
}

/// The line starts of a longer prefix extend those of a shorter one with larger offsets.
proof fn lemma_line_starts_split(b: Seq<u8>, n: int, m: int)
    requires
        0 <= n <= m <= b.len(),
        b.len() < usize::MAX,
    ensures
        line_starts_upto(b, n).len() <= line_starts_upto(b, m).len(),
        line_starts_upto(b, n) == line_starts_upto(b, m).subrange(
            0,
            line_starts_upto(b, n).len() as int,
        ),
        forall|k: int|
            line_starts_upto(b, n).len() <= k < line_starts_upto(b, m).len() ==> #[trigger]
            line_starts_upto(b, m)[k] > n,
    decreases m,
{
    if m > n {
        lemma_line_starts_split(b, n, m - 1);
        let p = line_starts_upto(b, m - 1);
        let q = line_starts_upto(b, n);
        if b[m - 1] == 0x0Au8 {
            assert(line_starts_upto(b, m) == p.push(m as usize));
            assert(q == p.push(m as usize).subrange(0, q.len() as int));
            assert forall|k: int|
                q.len() <= k < p.len() + 1 implies #[trigger] p.push(m as usize)[k] > n by {
                if k < p.len() {
                    assert(p.push(m as usize)[k] == p[k]);
                }
            }
        }
    } else {
        assert(line_starts_upto(b, n) == line_starts_upto(b, m).subrange(
            0,
            line_starts_upto(b, n).len() as int,
        ));
    }
}

#[derive(Debug, Default)]
pub struct SourceMap {
    files: Vec<SourceFile>,
    dependencies: Vec<String>,
}

/// The files of a rendered diagnostic list, joined by newlines.
pub open spec fn joined(parts: Seq<Seq<char>>) -> Seq<char>
    decreases parts.len(),
{
    if parts.len() == 0 {
        seq![]
    } else if parts.len() == 1 {
        parts[0]
    } else {
        joined(parts.drop_last()) + "\n"@ + parts.last()
    }
}

impl SourceMap {
    pub closed spec fn files_view(self) -> Seq<SourceFile> {
        self.files@
    }

    pub closed spec fn dependencies_view(self) -> Seq<Seq<char>> {
        self.dependencies@.map_values(|p: String| p@)
    }

    /// Empty map with no files and no dependencies.
    pub fn new() -> (map: SourceMap)
        ensures
            map.files_view().len() == 0,
            map.dependencies_view().len() == 0,
    {
        let map = SourceMap { files: Vec::new(), dependencies: Vec::new() };
        assert(map.dependencies_view() == Seq::<Seq<char>>::empty());
        map
    }

    /// Records a path that the loader attempted, once.
    pub fn record_dependency(&mut self, path: String)
        ensures
            final(self).files_view() == old(self).files_view(),
            final(self).dependencies_view() == if old(self).dependencies_view().contains(path@) {
                old(self).dependencies_view()
            } else {
                old(self).dependencies_view().push(path@)
            },
    {
        let ghost before = self.dependencies_view();
        let mut k: usize = 0;
        while k < self.dependencies.len()
            invariant
                k <= self.dependencies@.len(),
                before == self.dependencies@.map_values(|p: String| p@),
                forall|j: int| 0 <= j < k ==> before[j] != path@,
            decreases self.dependencies.len() - k,
        {
            if self.dependencies[k] == path {
                assert(before[k as int] == path@);
                return;
            }
            k += 1;
        }
        self.dependencies.push(path);
        assert(self.dependencies_view() == before.push(path@));
    }

    /// Files attempted by the loader, including missing imports for edit recovery.
    pub fn dependencies(&self) -> (paths: &[String])
        ensures
            paths@.map_values(|p: String| p@) == self.dependencies_view(),
    {
        self.dependencies.as_slice()
    }

    /// Adds a file and returns its identifier.
    pub fn add(&mut self, path: String, text: String) -> (id: SourceId)
        requires
            encode_utf8(text@).len() < usize::MAX,
        ensures
            id == SourceId(old(self).files_view().len() as usize),
            final(self).files_view().len() == old(self).files_view().len() + 1,
            final(self).files_view().subrange(0, id.0 as int) == old(self).files_view(),
            final(self).files_view()[id.0 as int].path_view() == path@,
            final(self).files_view()[id.0 as int].text_view() == text@,
            final(self).dependencies_view() == old(self).dependencies_view(),
    {
        let id = SourceId(self.files.len());
        let bytes = text.as_str().as_bytes();
        let mut line_starts: Vec<usize> = Vec::new();
        line_starts.push(0);
        let mut k: usize = 0;
        while k < bytes.len()
            invariant
                k <= bytes@.len(),
                bytes@ == encode_utf8(text@),
                bytes@.len() < usize::MAX,
                line_starts@ == line_starts_upto(bytes@, k as int),
            decreases bytes.len() - k,
        {
            if bytes[k] == 0x0Au8 {
                line_starts.push(k + 1);
            }
            k += 1;
        }
        let file = SourceFile { path, text, line_starts };
        let ghost deps = self.dependencies_view();
        self.files.push(file);
        assert(self.files_view().subrange(0, id.0 as int) == old(self).files_view());
        id
    }

    pub fn get(&self, id: SourceId) -> (file: Option<&SourceFile>)
        ensures
            id.0 < self.files_view().len() ==> file == Some(&self.files_view()[id.0 as int]),
            id.0 >= self.files_view().len() ==> file is None,
    {
        if id.0 < self.files.len() {
            Some(&self.files[id.0])
        } else {
            None
        }
    }

    pub fn files(&self) -> (files: &[SourceFile])
        ensures
            files@ == self.files_view(),
    {
        self.files.as_slice()
    }

    pub fn location(&self, span: crate::diagnostic::Span) -> (position: Option<(&str, usize, usize)>)
        ensures
            span.source.0 >= self.files_view().len() ==> position is None,
            span.source.0 < self.files_view().len() ==> {
                let file = self.files_view()[span.source.0 as int];
                &&& position is Some
                &&& position.unwrap().0@ == file.path_view()
                &&& position.unwrap().1 == line_column(file.text_bytes(), span.start as int).0
                &&& position.unwrap().2 == line_column(file.text_bytes(), span.start as int).1
            },
    {
        match self.get(span.source) {
            Some(file) => {
                let (line, column) = file.location(span.start);
                Some((file.path(), line, column))
            },
            None => None,
        }
    }

    /// Renders every diagnostic against its file, joined by newlines.
    pub fn render(&self, diagnostics: &[Diagnostic]) -> (text: String)
        ensures
            text@ == joined(
                Seq::new(
                    diagnostics@.len(),
                    |i: int| self.rendered_one(diagnostics@[i]),
                ),
            ),
    {
        let ghost parts = Seq::new(diagnostics@.len(), |i: int| self.rendered_one(diagnostics@[i]));
        let mut text = String::new();
        let mut k: usize = 0;
        while k < diagnostics.len()
            invariant
                k <= diagnostics@.len(),
                parts == Seq::new(diagnostics@.len(), |i: int| self.rendered_one(diagnostics@[i])),
                text@ == joined(parts.subrange(0, k as int)),
            decreases diagnostics.len() - k,
        {
            let diagnostic = &diagnostics[k];
            let part = match self.get(diagnostic.span.source) {
                Some(file) => diagnostic.render(file.path(), file.text()),
                None => {
                    let mut message = owned("error: ");
                    push_str(&mut message, diagnostic.message.as_str());
                    message
                },
            };
            assert(part@ == parts[k as int]);
            if k > 0 {
                push_str(&mut text, "\n");
            }
            push_str(&mut text, part.as_str());
            assert(parts.subrange(0, k + 1).drop_last() == parts.subrange(0, k as int));
            k += 1;
        }
        assert(parts.subrange(0, k as int) == parts);
        text
    }

    /// The rendering of one diagnostic: against its file, or as a bare message.
    pub closed spec fn rendered_one(self, diagnostic: Diagnostic) -> Seq<char> {
        if diagnostic.span.source.0 < self.files@.len() {
            let file = self.files@[diagnostic.span.source.0 as int];
            rendered(file.path@, encode_utf8(file.text@), diagnostic.message@, diagnostic.span)
        } else {
            "error: "@ + diagnostic.message@
        }
    }
}

/// How a map renders one diagnostic: against a file it holds, the text begins with the path,
/// line and column that `location` gives for the span, then `: error: ` and the message; for a
/// file it does not hold, the text is `error: ` and the message. Rendering one diagnostic alone
/// gives exactly that text.
pub proof fn lemma_rendered_one(map: SourceMap, d: Diagnostic)
    ensures
        d.span.source.0 < map.files_view().len() ==> {
            let f = map.files_view()[d.span.source.0 as int];
            let (line, column) = line_column(f.text_bytes(), d.span.start as int);
            has_prefix(
                map.rendered_one(d),
                f.path_view() + ":"@ + decimal(line) + ":"@ + decimal(column) + ": error: "@ + d.message@,
            )
        },
        d.span.source.0 >= map.files_view().len() ==> map.rendered_one(d) == "error: "@ + d.message@,
        joined(seq![map.rendered_one(d)]) == map.rendered_one(d),
{
    if d.span.source.0 < map.files_view().len() {
        let f = map.files_view()[d.span.source.0 as int];
        let b = f.text_bytes();
        let (line, column) = line_column(b, d.span.start as int);
        let head = f.path_view() + ":"@ + decimal(line) + ":"@ + decimal(column) + ": error: "@ + d.message@;
        let whole = rendered(f.path_view(), b, d.message@, d.span);
        assert(map.rendered_one(d) == whole);
        let tail = whole.subrange(head.len() as int, whole.len() as int);
        assert(whole =~= head + tail);
        lemma_prefix_of_concat(head, tail);
    }
}

/// The paths of successive attempts with every later repeat of an earlier path left out.
pub open spec fn attempted(attempts: Seq<Seq<char>>) -> Seq<Seq<char>>
    decreases attempts.len(),
{
    if attempts.len() == 0 {
        seq![]
    } else {
        let earlier = attempted(attempts.drop_last());
        if earlier.contains(attempts.last()) {
            earlier
        } else {
            earlier.push(attempts.last())
        }
    }
}

/// A new map records `attempted` of no attempts, and recording one more path on a map that
/// records `attempted(attempts)` records `attempted` of the longer list; that list holds every
/// attempted path exactly once.
pub proof fn lemma_dependencies_once(attempts: Seq<Seq<char>>, path: Seq<char>)
    ensures
        attempted(Seq::<Seq<char>>::empty()).len() == 0,
        attempted(attempts.push(path)) == if attempted(attempts).contains(path) {
            attempted(attempts)
        } else {
            attempted(attempts).push(path)
        },
        attempted(attempts).no_duplicates(),
        forall|p: Seq<char>| #[trigger] attempted(attempts).contains(p) <==> attempts.contains(p),
    decreases attempts.len(),
{
    assert(attempts.push(path).drop_last() =~= attempts);
    if attempts.len() > 0 {
        let rest = attempts.drop_last();
        let last = attempts.last();
        lemma_dependencies_once(rest, last);
        let earlier = attempted(rest);
        let result = attempted(attempts);
        assert(result == if earlier.contains(last) { earlier } else { earlier.push(last) });
        assert forall|p: Seq<char>| #[trigger] result.contains(p) <==> attempts.contains(p) by {
            if attempts.contains(p) {
                let i = choose|i: int| 0 <= i < attempts.len() && attempts[i] == p;
                if i < attempts.len() - 1 {
                    assert(rest[i] == p);
                    assert(earlier.contains(p));
                    let j = choose|j: int| 0 <= j < earlier.len() && earlier[j] == p;
                    if !earlier.contains(last) {
                        assert(earlier.push(last)[j] == p);
                    }
                } else {
                    if !earlier.contains(last) {
                        assert(earlier.push(last)[earlier.len() as int] == last);
                    }
                }
            }
            if result.contains(p) {
                let j = choose|j: int| 0 <= j < result.len() && result[j] == p;
                if j < earlier.len() {
                    assert(earlier[j] == p);
                    assert(earlier.contains(p));
                    let k = choose|k: int| 0 <= k < rest.len() && rest[k] == p;
                    assert(attempts[k] == p);
                } else {
                    assert(attempts[attempts.len() - 1] == p);
                }
            }
        }
        if !earlier.contains(last) {
            let r = earlier.push(last);
            assert forall|i: int, j: int| 0 <= i < r.len() && 0 <= j < r.len() && i != j implies r[i] != r[j] by {
                if i < earlier.len() && j < earlier.len() {
                } else if i == earlier.len() {
                    assert(earlier[j] == r[j]);
                } else {
                    assert(earlier[i] == r[i]);
                }
            }
        }
    } else {
        assert(attempted(attempts) =~= Seq::<Seq<char>>::empty());
    }
}

/// What `SourceMap::add` promises of the map before and after adding `path` with `text`.
pub open spec fn added(before: SourceMap, after: SourceMap, path: Seq<char>, text: Seq<char>) -> bool {
    &&& after.files_view().len() == before.files_view().len() + 1
    &&& after.files_view().subrange(0, before.files_view().len() as int) == before.files_view()
    &&& after.files_view()[before.files_view().len() as int].path_view() == path
    &&& after.files_view()[before.files_view().len() as int].text_view() == text
}

/// A map built from an empty one by adding files one after another holds exactly those files,
/// the `i`-th under identifier `i`: `get` finds each of them and nothing past them.
pub proof fn lemma_files_in_order(maps: Seq<SourceMap>, paths: Seq<Seq<char>>, texts: Seq<Seq<char>>)
    requires
        maps.len() == paths.len() + 1,
        texts.len() == paths.len(),
        maps[0].files_view().len() == 0,
        forall|k: int| 0 <= k < paths.len() ==> #[trigger] added(maps[k], maps[k + 1], paths[k], texts[k]),
    ensures
        maps.last().files_view().len() == paths.len(),
        forall|i: int|
            0 <= i < paths.len() ==> (#[trigger] maps.last().files_view()[i]).path_view() == paths[i]
                && maps.last().files_view()[i].text_view() == texts[i],
    decreases paths.len(),
{
    if paths.len() > 0 {
        let n = paths.len() - 1;
        lemma_files_in_order(maps.drop_last(), paths.drop_last(), texts.drop_last());
        assert(maps.drop_last().last() == maps[n]);
        assert(added(maps[n], maps[n + 1], paths[n], texts[n]));
        assert forall|i: int| 0 <= i < paths.len() implies (#[trigger] maps.last().files_view()[i]).path_view() == paths[i]
            && maps.last().files_view()[i].text_view() == texts[i] by {
            if i < n {
                assert(maps.last().files_view()[i] == maps.last().files_view().subrange(0, n)[i]);
                assert(paths.drop_last()[i] == paths[i]);
                assert(texts.drop_last()[i] == texts[i]);
            }
        }
    }
}

/// A failed file compilation retains every source read before the failure.
#[derive(Debug)]
pub struct AnalysisError {
    pub sources: SourceMap,
    pub diagnostics: Vec<Diagnostic>,
}

impl AnalysisError {
    /// The rendered diagnostics.
    pub fn message(&self) -> (text: String)
        ensures
            text@ == joined(
                Seq::new(
                    self.diagnostics@.len(),
                    |i: int| self.sources.rendered_one(self.diagnostics@[i]),
                ),
            ),
    {
        self.sources.render(self.diagnostics.as_slice())
    }
}

} // verus!
