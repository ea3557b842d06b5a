//! Paths of Fluent identifiers: a message or term, and the attributes,
//! variants and variables beneath it.
use vstd::prelude::*;
use crate::error::LingoraError;
use crate::text::{join, join_strings};

verus! {

/// One step of a path to a Fluent identifier.
#[derive(Clone, Debug, PartialEq, Eq, Hash)]
pub enum PathSegment {
    Message(String),
    Term(String),
    Attribute(String),
    Variant(String),
    DefaultVariant(String),
    Variable(String),
}

/// What a path segment is, with its name.
pub enum SegmentModel {
    Message(Seq<char>),
    Term(Seq<char>),
    Attribute(Seq<char>),
    Variant(Seq<char>),
    DefaultVariant(Seq<char>),
    Variable(Seq<char>),
}

impl View for PathSegment {
    type V = SegmentModel;

    open spec fn view(&self) -> SegmentModel {
        match self {
            PathSegment::Message(n) => SegmentModel::Message(n@),
            PathSegment::Term(n) => SegmentModel::Term(n@),
            PathSegment::Attribute(n) => SegmentModel::Attribute(n@),
            PathSegment::Variant(n) => SegmentModel::Variant(n@),
            PathSegment::DefaultVariant(n) => SegmentModel::DefaultVariant(n@),
            PathSegment::Variable(n) => SegmentModel::Variable(n@),
        }
    }
}

/// The name carried by a segment.
pub open spec fn segment_name(s: SegmentModel) -> Seq<char> {
    match s {
        SegmentModel::Message(n) => n,
        SegmentModel::Term(n) => n,
        SegmentModel::Attribute(n) => n,
        SegmentModel::Variant(n) => n,
        SegmentModel::DefaultVariant(n) => n,
        SegmentModel::Variable(n) => n,
    }
}

/// A default variant is, once normalized, an ordinary variant; every other
/// segment is unchanged.
pub open spec fn normalize_segment(s: SegmentModel) -> SegmentModel {
    match s {
        SegmentModel::DefaultVariant(n) => SegmentModel::Variant(n),
        other => other,
    }
}

/// A path with every default variant made an ordinary variant.
pub open spec fn normalize_path(p: Seq<SegmentModel>) -> Seq<SegmentModel> {
    p.map_values(|s: SegmentModel| normalize_segment(s))
}

/// The names of a path's segments.
pub open spec fn segment_names(p: Seq<SegmentModel>) -> Seq<Seq<char>> {
    p.map_values(|s: SegmentModel| segment_name(s))
}

/// The text of a path: the names of its segments joined by `" / "`.
pub open spec fn path_text(p: Seq<SegmentModel>) -> Seq<char> {
    join(segment_names(p), " / "@)
}

impl PathSegment {
    /// A copy of this segment.
    pub fn copy(&self) -> (res: PathSegment)
        ensures
            res@ == self@,
    {
        match self {
            PathSegment::Message(n) => PathSegment::Message(n.clone()),
            PathSegment::Term(n) => PathSegment::Term(n.clone()),
            PathSegment::Attribute(n) => PathSegment::Attribute(n.clone()),
            PathSegment::Variant(n) => PathSegment::Variant(n.clone()),
            PathSegment::DefaultVariant(n) => PathSegment::DefaultVariant(n.clone()),
            PathSegment::Variable(n) => PathSegment::Variable(n.clone()),
        }
    }

    /// The name carried by this segment.
    pub fn name(&self) -> (res: &String)
        ensures
            res@ == segment_name(self@),
    {
        match self {
            PathSegment::Message(n) => n,
            PathSegment::Term(n) => n,
            PathSegment::Attribute(n) => n,
            PathSegment::Variant(n) => n,
            PathSegment::DefaultVariant(n) => n,
            PathSegment::Variable(n) => n,
        }
    }

    /// This segment with a default variant made an ordinary variant.
    pub fn normalized(&self) -> (res: PathSegment)
        ensures
            res@ == normalize_segment(self@),
    {
        match self {
            PathSegment::DefaultVariant(n) => PathSegment::Variant(n.clone()),
            other => other.copy(),
        }
    }

    /// Whether two segments are the same kind with the same name.
    pub fn same_as(&self, other: &PathSegment) -> (res: bool)
        ensures
            res == (self@ == other@),
    {
        match (self, other) {
            (PathSegment::Message(a), PathSegment::Message(b)) => a.eq(b),
            (PathSegment::Term(a), PathSegment::Term(b)) => a.eq(b),
            (PathSegment::Attribute(a), PathSegment::Attribute(b)) => a.eq(b),
            (PathSegment::Variant(a), PathSegment::Variant(b)) => a.eq(b),
            (PathSegment::DefaultVariant(a), PathSegment::DefaultVariant(b)) => a.eq(b),
            (PathSegment::Variable(a), PathSegment::Variable(b)) => a.eq(b),
            _ => false,
        }
    }
}

/// The views of a sequence of segments.
pub open spec fn segments_view(s: Seq<PathSegment>) -> Seq<SegmentModel> {
    s.map_values(|x: PathSegment| x@)
}

/// A sequence of segments leading from a message or term to an identifier
/// beneath it.
#[derive(Clone, Debug, PartialEq, Eq, Hash)]
pub struct Path(pub Vec<PathSegment>);

impl View for Path {
    type V = Seq<SegmentModel>;

    open spec fn view(&self) -> Seq<SegmentModel> {
        segments_view(self.0@)
    }
}

/// A copy of a sequence of segments.
pub fn copy_segments(s: &Vec<PathSegment>) -> (res: Vec<PathSegment>)
    ensures
        segments_view(res@) == segments_view(s@),
{
    let mut res: Vec<PathSegment> = Vec::new();
    let n = s.len();
    let mut i: usize = 0;
    while i < n
        invariant
            n == s.len(),
            i <= n,
            res.len() == i,
            forall|j: int| 0 <= j < i ==> res@[j]@ == s@[j]@,
        decreases n - i,
    {
        res.push(s[i].copy());
        i += 1;
    }
    assert(segments_view(res@) =~= segments_view(s@));
    res
}

impl Path {
    /// The path made of the given segments.
    pub fn from_segments(segments: &Vec<PathSegment>) -> (res: Path)
        ensures
            res@ == segments_view(segments@),
    {
        Path(copy_segments(segments))
    }

    /// The empty path.
    pub fn empty() -> (res: Path)
        ensures
            res@ == Seq::<SegmentModel>::empty(),
    {
        let v: Vec<PathSegment> = Vec::new();
        let res = Path(v);
        assert(res@ =~= Seq::<SegmentModel>::empty());
        res
    }

    /// A copy of this path.
    pub fn copy(&self) -> (res: Path)
        ensures
            res@ == self@,
    {
        Path(copy_segments(&self.0))
    }

    /// The segments of this path.
    pub fn segments(&self) -> (res: &Vec<PathSegment>)
        ensures
            segments_view(res@) == self@,
    {
        &self.0
    }

    /// Whether two paths have the same segments.
    pub fn same_as(&self, other: &Path) -> (res: bool)
        ensures
            res == (self@ == other@),
    {
        let n = self.0.len();
        if n != other.0.len() {
            assert(self@.len() != other@.len());
            return false;
        }
        let mut i: usize = 0;
        while i < n
            invariant
                n == self.0.len(),
                n == other.0.len(),
                i <= n,
                forall|j: int| 0 <= j < i ==> self@[j] == other@[j],
            decreases n - i,
        {
            if !self.0[i].same_as(&other.0[i]) {
                assert(self@[i as int] != other@[i as int]);
                return false;
            }
            i += 1;
        }
        assert(self@ =~= other@);
        true
    }

    /// The same path, in which default variants are ordinary variants.
    pub fn normalized(&self) -> (res: Path)
        ensures
            res@ == normalize_path(self@),
    {
        let mut res: Vec<PathSegment> = Vec::new();
        let n = self.0.len();
        let mut i: usize = 0;
        while i < n
            invariant
                n == self.0.len(),
                i <= n,
                res.len() == i,
                forall|j: int| 0 <= j < i ==> res@[j]@ == normalize_segment(self.0@[j]@),
            decreases n - i,
        {
            res.push(self.0[i].normalized());
            i += 1;
        }
        let out = Path(res);
        assert(out@ =~= normalize_path(self@));
        out
    }

    /// The text of this path: the names of its segments joined by `" / "`.
    pub fn to_text(&self) -> (res: String)
        ensures
            res@ == path_text(self@),
    {
        let mut names: Vec<String> = Vec::new();
        let n = self.0.len();
        let mut i: usize = 0;
        while i < n
            invariant
                n == self.0.len(),
                i <= n,
                names.len() == i,
                forall|j: int| 0 <= j < i ==> names@[j]@ == segment_name(self.0@[j]@),
            decreases n - i,
        {
            names.push(self.0[i].name().clone());
            i += 1;
        }
        assert(crate::text::views(names@) =~= segment_names(self@));
        join_strings(&names, " / ")
    }
}

/// A fully qualified Fluent identifier, naming a message, term, attribute,
/// variant or variable within a Fluent resource.
///
/// Examples of identifier literals: `hello`, `user-name`, `-brand`,
/// `greeting.title`.
#[derive(Clone, Debug, PartialEq, Eq, Hash)]
pub struct QualifiedIdentifier(pub Path);

impl View for QualifiedIdentifier {
    type V = Seq<SegmentModel>;

    open spec fn view(&self) -> Seq<SegmentModel> {
        self.0@
    }
}

/// Whether `regex` counts a character as a word character (`\w`, with
/// Unicode).
pub uninterp spec fn regex_word_char(c: char) -> bool;

/// Whether `regex` matches the word class `\w` (Unicode) against `c`. The
/// contract names the result `regex_word_char(c)`.
#[verifier::external_body]
fn word_char(c: char) -> (res: bool)
    ensures
        res == regex_word_char(c),
{
    regex::Regex::new(r"\A\w\z").expect("the word class is a valid pattern").is_match(c.encode_utf8(&mut [0u8; 4]))
}

/// A character of a name in an identifier literal: a word character or `-`.
pub open spec fn is_name_char(c: char) -> bool {
    regex_word_char(c) || c == '-'
}

/// Names separated by single dots: the text is not empty, holds only name
/// characters and dots, does not start with a dot, and every dot is
/// followed by a name character.
pub open spec fn is_dotted_name(s: Seq<char>) -> bool {
    &&& s.len() > 0
    &&& s[0] != '.'
    &&& forall|i: int| 0 <= i < s.len() ==> #[trigger] s[i] == '.' || is_name_char(s[i])
    &&& forall|i: int| 0 <= i < s.len() && #[trigger] s[i] == '.' ==> i + 1 < s.len() && s[i + 1] != '.'
}

/// The position of the last dot of `s`, or -1 when it has none.
pub open spec fn last_dot(s: Seq<char>) -> int
    decreases s.len(),
{
    if s.len() == 0 {
        -1
    } else if s.last() == '.' {
        s.len() - 1
    } else {
        last_dot(s.drop_last())
    }
}

/// The first segment of a literal: a term when it starts with `-`, else a
/// message.
pub open spec fn head_segment(is_term: bool, name: Seq<char>) -> SegmentModel {
    if is_term {
        SegmentModel::Term(name)
    } else {
        SegmentModel::Message(name)
    }
}

/// Whether a literal has the form of a term: `-` then dotted names.
pub open spec fn is_term_literal(lit: Seq<char>) -> bool {
    lit.len() > 0 && lit[0] == '-' && is_dotted_name(lit.skip(1))
}

/// The identifier an identifier literal names, or `None` when it is
/// malformed. A literal that starts with a digit is malformed. A term is `-`
/// then names separated by dots, the part after the last dot (with its dot)
/// being an attribute of the term named by the rest (`-error.auth.invalid`
/// is attribute `.invalid` of term `-error.auth`). Otherwise the literal is a
/// message name, optionally followed by one dot and an attribute name. Names
/// are made of word characters and `-`.
pub open spec fn literal_path(lit: Seq<char>) -> Option<Seq<SegmentModel>> {
    let is_term = is_term_literal(lit);
    let start: int = if is_term { 1 } else { 0 };
    let body = lit.skip(start);
    if lit.len() > 0 && '0' <= lit[0] && lit[0] <= '9' {
        None
    } else if !is_term && !is_dotted_name(lit) {
        None
    } else if !is_term && exists|i: int| 0 <= i < last_dot(lit) && lit[i] == '.' {
        None
    } else if last_dot(body) < 0 {
        Some(seq![head_segment(is_term, lit)])
    } else {
        Some(
            seq![
                head_segment(is_term, lit.take(start + last_dot(body))),
                SegmentModel::Attribute(lit.skip(start + last_dot(body))),
            ],
        )
    }
}

/// The last dot is a dot, and no dot follows it; -1 when there is none.
pub proof fn lemma_last_dot(s: Seq<char>)
    ensures
        -1 <= last_dot(s) < s.len(),
        last_dot(s) >= 0 ==> s[last_dot(s)] == '.',
        forall|i: int| last_dot(s) < i < s.len() ==> #[trigger] s[i] != '.',
    decreases s.len(),
{
    if s.len() > 0 && s.last() != '.' {
        lemma_last_dot(s.drop_last());
        assert forall|i: int| last_dot(s) < i < s.len() implies #[trigger] s[i] != '.' by {
            if i < s.len() - 1 {
                assert(s.drop_last()[i] == s[i]);
            }
        }
    }
}

/// Whether a character may be part of a name.
fn name_char(c: char) -> (res: bool)
    ensures
        res == is_name_char(c),
{
    c == '-' || word_char(c)
}

/// Whether the characters of `literal` from `start` on are names separated
/// by single dots.
fn dotted_name_from(literal: &str, start: usize) -> (res: bool)
    requires
        start <= literal@.len(),
    ensures
        res == is_dotted_name(literal@.skip(start as int)),
{
    let ghost s = literal@.skip(start as int);
    let n = literal.unicode_len();
    if start == n {
        return false;
    }
    if literal.get_char(start) == '.' {
        return false;
    }
    let mut i: usize = start;
    while i < n
        invariant
            n == literal@.len(),
            start < n,
            start <= i <= n,
            s == literal@.skip(start as int),
            s[0] != '.',
            forall|j: int| 0 <= j < i - start ==> #[trigger] s[j] == '.' || is_name_char(s[j]),
            forall|j: int| 0 <= j < i - start && #[trigger] s[j] == '.' ==> j + 1 < s.len() && s[j + 1] != '.',
        decreases n - i,
    {
        let c = literal.get_char(i);
        assert(s[i - start] == c);
        if c == '.' {
            if i + 1 >= n {
                return false;
            }
            let d = literal.get_char(i + 1);
            assert(s[i + 1 - start] == d);
            if d == '.' {
                return false;
            }
        } else if !name_char(c) {
            return false;
        }
        i += 1;
    }
    true
}

impl QualifiedIdentifier {
    /// The identifier at the given path.
    pub fn from_path(path: &Path) -> (res: QualifiedIdentifier)
        ensures
            res@ == path@,
    {
        QualifiedIdentifier(path.copy())
    }

    /// A copy of this identifier.
    pub fn copy(&self) -> (res: QualifiedIdentifier)
        ensures
            res@ == self@,
    {
        QualifiedIdentifier(self.0.copy())
    }

    /// The underlying path.
    pub fn path(&self) -> (res: &Path)
        ensures
            res@ == self@,
    {
        &self.0
    }

    /// The same identifier, not telling default variants from other variants.
    pub fn normalized(&self) -> (res: QualifiedIdentifier)
        ensures
            res@ == normalize_path(self@),
    {
        QualifiedIdentifier(self.0.normalized())
    }

    /// The text of the normalized identifier.
    pub fn to_normalized_string(&self) -> (res: String)
        ensures
            res@ == path_text(normalize_path(self@)),
    {
        self.normalized().to_meta_string()
    }

    /// The text of the identifier: its segment names joined by `" / "`.
    pub fn to_meta_string(&self) -> (res: String)
        ensures
            res@ == path_text(self@),
    {
        self.0.to_text()
    }

    /// Whether two identifiers have the same path.
    pub fn same_as(&self, other: &QualifiedIdentifier) -> (res: bool)
        ensures
            res == (self@ == other@),
    {
        self.0.same_as(&other.0)
    }

    /// Parses an identifier literal such as `message`, `-term`,
    /// `message.attribute` or `-error.auth.invalid` (attribute `.invalid` of
    /// term `-error.auth`); any other text is malformed.
    pub fn from_str(literal: &str) -> (res: Result<QualifiedIdentifier, LingoraError>)
        ensures
            match literal_path(literal@) {
                Some(p) => res matches Ok(id) && id@ == p,
                None => res matches Err(e) && e@ == crate::error::ErrorModel::MalformedIdentifierLiteral(literal@),
            },
    {
        let ghost lit = literal@;
        let n = literal.unicode_len();
        if n > 0 {
            let c = literal.get_char(0);
            if '0' <= c && c <= '9' {
                return Err(LingoraError::MalformedIdentifierLiteral(String::from_str(literal)));
            }
        }
        let is_term = n > 0 && literal.get_char(0) == '-' && dotted_name_from(literal, 1);
        assert(is_term == is_term_literal(lit));
        let start: usize = if is_term { 1 } else { 0 };
        let ghost body = lit.skip(start as int);
        if !is_term && !dotted_name_from(literal, 0) {
            assert(lit.skip(0) =~= lit);
            return Err(LingoraError::MalformedIdentifierLiteral(String::from_str(literal)));
        }
        assert(lit.skip(0) =~= lit);
        proof {
            lemma_last_dot(body);
        }
        let mut k: usize = n;
        let mut found = false;
        while k > start
            invariant_except_break
                !found,
                forall|j: int| k <= j < n ==> #[trigger] lit[j] != '.',
            invariant
                start <= k <= n,
                n == lit.len(),
                lit == literal@,
                body == lit.skip(start as int),
            ensures
                found ==> start <= k < n && lit[k as int] == '.',
                !found ==> k == start,
                found ==> forall|j: int| k < j < n ==> #[trigger] lit[j] != '.',
                !found ==> forall|j: int| k <= j < n ==> #[trigger] lit[j] != '.',
            decreases k,
        {
            let c = literal.get_char(k - 1);
            if c == '.' {
                k = k - 1;
                found = true;
                break;
            }
            k = k - 1;
        }
        proof {
            let ld = last_dot(body);
            if found {
                assert(body[k - start] == lit[k as int]);
                if ld < 0 {
                    assert(body[k - start] != '.');
                } else if ld < k - start {
                    assert(body[k - start] != '.');
                } else if ld > k - start {
                    assert(body[ld] == lit[start + ld]);
                }
                assert(ld == k - start);
            } else {
                if ld >= 0 {
                    assert(body[ld] == lit[start + ld]);
                    assert(lit[start + ld] != '.');
                }
                assert(ld < 0);
            }
        }
        if !is_term && found {
            let mut j: usize = 0;
            while j < k
                invariant
                    !is_term,
                    !is_term_literal(lit),
                    is_dotted_name(lit),
                    !(lit.len() > 0 && '0' <= lit[0] && lit[0] <= '9'),
                    start == 0,
                    body == lit.skip(start as int),
                    last_dot(body) == k,
                    j <= k,
                    k < n,
                    n == lit.len(),
                    lit == literal@,
                    forall|q: int| 0 <= q < j ==> #[trigger] lit[q] != '.',
                decreases k - j,
            {
                if literal.get_char(j) == '.' {
                    assert(lit[j as int] == '.');
                    assert(body =~= lit);
                    assert(last_dot(lit) == k);
                    assert(0 <= j < last_dot(lit) && lit[j as int] == '.');
                    return Err(LingoraError::MalformedIdentifierLiteral(String::from_str(literal)));
                }
                j += 1;
            }
        }
        let mut segments: Vec<PathSegment> = Vec::new();
        let head_end = if found { k } else { n };
        let head = String::from_str(literal.substring_char(0, head_end));
        if is_term {
            segments.push(PathSegment::Term(head));
        } else {
            segments.push(PathSegment::Message(head));
        }
        if found {
            let attribute = String::from_str(literal.substring_char(k, n));
            segments.push(PathSegment::Attribute(attribute));
        } else {
            assert(lit.take(n as int) =~= lit);
        }
        let res = QualifiedIdentifier(Path(segments));
        assert(res@ =~= literal_path(lit)->Some_0);
        Ok(res)
    }
}

} // verus!
