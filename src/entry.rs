//! A pattern entry: a classified pattern with its MIME type, weight and case flag.
use vstd::prelude::*;

use crate::fields::{
    decimal, decimal_string, is_digit, lemma_decimal, lemma_split_append_field, lemma_split_no_colon, no_colon,
    parse_weight, split_colons, split_fields, weight_of,
};
use crate::outside::{
    caseless_eq, caseless_eq_of, glob_match, glob_match_of, lower_of, lowercase, pattern_compiles,
    pattern_is_valid,
};
use crate::shape::{
    classify, determine_type, is_full_pattern, lemma_classify_text, pattern_usable, shape_text,
    GlobType, ShapeModel,
};

verus! {

/// The value an entry stands for.
pub struct GlobModel {
    pub shape: ShapeModel,
    pub weight: int,
    pub case_sensitive: bool,
    pub mime_type: Seq<char>,
}

/// The entry built from its parts.
pub open spec fn model_of(mime_type: Seq<char>, pattern: Seq<char>, weight: int, cs: bool) -> GlobModel {
    GlobModel { shape: classify(pattern), weight, case_sensitive: cs, mime_type }
}

/// The weight that an entry gets where its source gives none.
pub const DEFAULT_WEIGHT: i32 = 50;

/// The entry that a line `type:pattern` describes, if it is well formed.
pub open spec fn v1_entry(line: Seq<char>) -> Option<GlobModel> {
    let f = split_fields(line);
    if f.len() == 2 && f[0].len() > 0 && f[1].len() > 0 && pattern_usable(f[1]) {
        Some(model_of(f[0], f[1], DEFAULT_WEIGHT as int, false))
    } else {
        None
    }
}

/// The marker of a case-sensitive entry in the weighted format.
pub open spec fn cs_marker() -> Seq<char> {
    seq!['c', 's']
}

/// The entry that a line `weight:type:pattern[:cs]` describes, if it is well formed.
pub open spec fn v2_entry(line: Seq<char>) -> Option<GlobModel> {
    let f = split_fields(line);
    if (f.len() == 3 || f.len() == 4) && weight_of(f[0]) is Some && f[1].len() > 0 && f[2].len()
        > 0 && (f.len() == 4 ==> f[3] == cs_marker()) && pattern_usable(f[2]) {
        Some(model_of(f[1], f[2], weight_of(f[0])->0, f.len() == 4))
    } else {
        None
    }
}

/// The line `type:pattern` that writes an entry in the unweighted format.
pub open spec fn v1_line(mime_type: Seq<char>, pattern: Seq<char>) -> Seq<char> {
    mime_type + seq![':'] + pattern
}

/// The line `weight:type:pattern`, with `:cs` after it for a case-sensitive
/// entry, that writes an entry in the weighted format.
pub open spec fn v2_line(mime_type: Seq<char>, pattern: Seq<char>, weight: nat, cs: bool) -> Seq<
    char,
> {
    let base = decimal(weight) + seq![':'] + mime_type + seq![':'] + pattern;
    if cs {
        base + seq![':'] + cs_marker()
    } else {
        base
    }
}

/// An entry of the default weight that is not case-sensitive, written as
/// `type:pattern` and read back, is the entry built from the same parts,
/// where neither part is empty or holds a colon.
pub proof fn lemma_v1_round_trip(mime_type: Seq<char>, pattern: Seq<char>)
    requires
        mime_type.len() > 0,
        pattern.len() > 0,
        no_colon(mime_type),
        no_colon(pattern),
        pattern_usable(pattern),
    ensures
        shape_text(model_of(mime_type, pattern, DEFAULT_WEIGHT as int, false).shape) == pattern,
        v1_entry(v1_line(mime_type, pattern)) == Some(
            model_of(mime_type, pattern, DEFAULT_WEIGHT as int, false),
        ),
{
    lemma_classify_text(pattern);
    lemma_split_no_colon(mime_type);
    lemma_split_append_field(mime_type, pattern);
    assert(seq![mime_type].push(pattern) =~= seq![mime_type, pattern]);
}

/// An entry of non-negative weight, written in the weighted format and read
/// back, is the entry built from the same parts, where neither the type nor
/// the pattern is empty or holds a colon.
pub proof fn lemma_v2_round_trip(mime_type: Seq<char>, pattern: Seq<char>, weight: i32, cs: bool)
    requires
        mime_type.len() > 0,
        pattern.len() > 0,
        no_colon(mime_type),
        no_colon(pattern),
        pattern_usable(pattern),
        weight >= 0,
    ensures
        shape_text(model_of(mime_type, pattern, weight as int, cs).shape) == pattern,
        v2_entry(v2_line(mime_type, pattern, weight as nat, cs)) == Some(
            model_of(mime_type, pattern, weight as int, cs),
        ),
{
    lemma_classify_text(pattern);
    let d = decimal(weight as nat);
    lemma_decimal(weight as nat);
    lemma_split_no_colon(d);
    lemma_split_append_field(d, mime_type);
    let a1 = d + seq![':'] + mime_type;
    lemma_split_append_field(a1, pattern);
    let a2 = a1 + seq![':'] + pattern;
    assert(split_fields(a2) =~= seq![d, mime_type, pattern]);
    assert(is_digit(d[0]));
    assert(weight_of(d) == Some(weight as int));
    if cs {
        assert(no_colon(cs_marker()));
        lemma_split_append_field(a2, cs_marker());
        assert(split_fields(a2 + seq![':'] + cs_marker()) =~= seq![d, mime_type, pattern, cs_marker()]);
    }
}

/// `s` ends with `suffix`.
pub open spec fn ends_with(s: Seq<char>, suffix: Seq<char>) -> bool {
    suffix.len() <= s.len() && s.subrange(s.len() - suffix.len(), s.len() as int) == suffix
}

/// Whether an entry matches a file name. A literal compares without case; a
/// suffix compares as is, and also against the lowercased name unless the
/// entry is case-sensitive; a full glob is left to the glob engine, which
/// does not look at the case flag.
pub open spec fn matches_spec(g: GlobModel, name: Seq<char>) -> bool {
    match g.shape {
        ShapeModel::Literal(t) => caseless_eq_of(t, name),
        ShapeModel::Simple(t) => ends_with(name, t) || (!g.case_sensitive && ends_with(
            lower_of(name),
            t,
        )),
        ShapeModel::Full(t) => glob_match_of(t, name),
    }
}

/// Whether `s` ends with `suffix`.
fn str_ends_with(s: &str, suffix: &str) -> (r: bool)
    ensures
        r == ends_with(s@, suffix@),
{
    let n = s.unicode_len();
    let m = suffix.unicode_len();
    if m > n {
        return false;
    }
    let off = n - m;
    let mut i: usize = 0;
    while i < m
        invariant
            n == s@.len(),
            m == suffix@.len(),
            off == n - m,
            i <= m,
            forall|k: int| 0 <= k < i ==> s@[off + k] == suffix@[k],
        decreases m - i,
    {
        if s.get_char(off + i) != suffix.get_char(i) {
            assert(s@.subrange(off as int, n as int)[i as int] != suffix@[i as int]);
            return false;
        }
        i = i + 1;
    }
    assert(s@.subrange(off as int, n as int) =~= suffix@);
    true
}

/// A pattern with the MIME type it identifies, its weight and its case flag.
#[derive(Debug, PartialEq, Eq)]
pub struct Glob {
    glob: GlobType,
    weight: i32,
    case_sensitive: bool,
    mime_type: String,
}

impl View for Glob {
    type V = GlobModel;

    closed spec fn view(&self) -> GlobModel {
        GlobModel {
            shape: self.glob@,
            weight: self.weight as int,
            case_sensitive: self.case_sensitive,
            mime_type: self.mime_type@,
        }
    }
}

impl Glob {
    /// A full glob in an entry is one the glob engine accepts.
    #[verifier::type_invariant]
    spec fn well_formed(&self) -> bool {
        match self.glob {
            GlobType::Full(t) => pattern_compiles(t@),
            _ => true,
        }
    }

    /// An entry of the default weight, matched without regard to case.
    pub fn simple(mime_type: &str, glob: &str) -> (r: Glob)
        requires
            pattern_usable(glob@),
        ensures
            r@ == model_of(mime_type@, glob@, DEFAULT_WEIGHT as int, false),
    {
        Glob::new(mime_type, glob, DEFAULT_WEIGHT, false)
    }

    /// An entry of the given weight, matched without regard to case.
    pub fn with_weight(mime_type: &str, glob: &str, weight: i32) -> (r: Glob)
        requires
            pattern_usable(glob@),
        ensures
            r@ == model_of(mime_type@, glob@, weight as int, false),
    {
        Glob::new(mime_type, glob, weight, false)
    }

    /// An entry from all of its parts.
    pub fn new(mime_type: &str, glob: &str, weight: i32, cs: bool) -> (r: Glob)
        requires
            pattern_usable(glob@),
        ensures
            r@ == model_of(mime_type@, glob@, weight as int, cs),
    {
        Glob {
            mime_type: String::from_str(mime_type),
            glob: determine_type(glob),
            weight: weight,
            case_sensitive: cs,
        }
    }

    /// An entry from all of its parts, or none where the pattern is a full
    /// glob that the glob engine rejects.
    pub fn try_new(mime_type: &str, glob: &str, weight: i32, cs: bool) -> (r: Option<Glob>)
        ensures
            match r {
                Some(g) => pattern_usable(glob@) && g@ == model_of(mime_type@, glob@, weight as int, cs),
                None => !pattern_usable(glob@),
            },
    {
        if glob_is_usable(glob) {
            Some(Glob::new(mime_type, glob, weight, cs))
        } else {
            None
        }
    }

    /// Reads a line `type:pattern`: weight 50, not case-sensitive.
    pub fn from_v1_string(s: &str) -> (r: Option<Glob>)
        ensures
            match r {
                Some(g) => v1_entry(s@) == Some(g@),
                None => v1_entry(s@) is None,
            },
    {
        let chunks = split_colons(s);
        if chunks.len() != 2 {
            return None;
        }
        let mime_type = chunks[0].as_str();
        let glob = chunks[1].as_str();
        if mime_type.unicode_len() == 0 || glob.unicode_len() == 0 {
            return None;
        }
        if !glob_is_usable(glob) {
            return None;
        }
        Some(Glob::simple(mime_type, glob))
    }

    /// Reads a line `weight:type:pattern`, or `weight:type:pattern:cs` for a
    /// case-sensitive entry.
    pub fn from_v2_string(s: &str) -> (r: Option<Glob>)
        ensures
            match r {
                Some(g) => v2_entry(s@) == Some(g@),
                None => v2_entry(s@) is None,
            },
    {
        let chunks = split_colons(s);
        if chunks.len() != 3 && chunks.len() != 4 {
            return None;
        }
        let weight = match parse_weight(chunks[0].as_str()) {
            Some(w) => w,
            None => return None,
        };
        let mime_type = chunks[1].as_str();
        let glob = chunks[2].as_str();
        if mime_type.unicode_len() == 0 || glob.unicode_len() == 0 {
            return None;
        }
        let case_sensitive = if chunks.len() == 4 {
            if is_cs_marker(chunks[3].as_str()) {
                true
            } else {
                return None;
            }
        } else {
            false
        };
        if !glob_is_usable(glob) {
            return None;
        }
        if case_sensitive {
            Some(Glob::new(mime_type, glob, weight, true))
        } else {
            Some(Glob::with_weight(mime_type, glob, weight))
        }
    }

    /// Whether this entry matches the file name.
    pub fn compare(&self, file_name: &str) -> (r: bool)
        ensures
            r == matches_spec(self@, file_name@),
    {
        proof {
            use_type_invariant(self);
        }
        match &self.glob {
            GlobType::Literal(s) => caseless_eq(s.as_str(), file_name),
            GlobType::Simple(s) => {
                if str_ends_with(file_name, s.as_str()) {
                    return true;
                }
                if !self.case_sensitive {
                    let lc_file_name = lowercase(file_name);
                    if str_ends_with(lc_file_name.as_str(), s.as_str()) {
                        return true;
                    }
                }
                false
            },
            GlobType::Full(p) => glob_match(p.as_str(), file_name),
        }
    }

    /// The entry as a line `type:pattern`; weight and case flag are not written.
    pub fn to_v1_string(&self) -> (r: String)
        ensures
            r@ == v1_line(self@.mime_type, shape_text(self@.shape)),
    {
        let mut r = self.mime_type.clone();
        r.append(":");
        r.append(self.glob.pattern_text().as_str());
        proof {
            reveal_strlit(":");
        }
        r
    }

    /// The entry as a line `weight:type:pattern[:cs]`, or none where its
    /// weight is negative, which that format cannot hold.
    pub fn to_v2_string(&self) -> (r: Option<String>)
        ensures
            match r {
                Some(line) => self@.weight >= 0 && line@ == v2_line(
                    self@.mime_type,
                    shape_text(self@.shape),
                    self@.weight as nat,
                    self@.case_sensitive,
                ),
                None => self@.weight < 0,
            },
    {
        if self.weight < 0 {
            return None;
        }
        let mut r = decimal_string(self.weight as u32);
        r.append(":");
        r.append(self.mime_type.as_str());
        r.append(":");
        r.append(self.glob.pattern_text().as_str());
        if self.case_sensitive {
            r.append(":cs");
        }
        proof {
            reveal_strlit(":");
            reveal_strlit(":cs");
        }
        assert(r@ =~= v2_line(
            self@.mime_type,
            shape_text(self@.shape),
            self@.weight as nat,
            self@.case_sensitive,
        ));
        Some(r)
    }

    /// The MIME type this entry identifies.
    pub fn mime_type(&self) -> (r: &String)
        ensures
            r@ == self@.mime_type,
    {
        &self.mime_type
    }

    /// The entry's weight.
    pub fn weight(&self) -> (r: i32)
        ensures
            r as int == self@.weight,
    {
        self.weight
    }
}

/// Whether the pattern can stand in an entry: it is no full glob, or one
/// that the glob engine accepts.
fn glob_is_usable(glob: &str) -> (r: bool)
    ensures
        r == pattern_usable(glob@),
{
    if is_full_pattern(glob) {
        pattern_is_valid(glob)
    } else {
        true
    }
}

/// The field is exactly `cs`.
fn is_cs_marker(s: &str) -> (r: bool)
    ensures
        r == (s@ == cs_marker()),
{
    if s.unicode_len() != 2 {
        return false;
    }
    let a = s.get_char(0);
    let b = s.get_char(1);
    assert(a == 'c' && b == 's' ==> s@ =~= cs_marker());
    a == 'c' && b == 's'
}

} // verus!
