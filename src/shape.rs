//! Classification of a pattern into one of three shapes, decided once.
use vstd::prelude::*;

use crate::outside::pattern_compiles;

verus! {

/// A character that only a full glob evaluation can interpret.
pub open spec fn is_meta(c: char) -> bool {
    c == '\\' || c == '[' || c == '*' || c == '?'
}

/// No character of `s` is a glob metacharacter.
pub open spec fn no_meta(s: Seq<char>) -> bool {
    forall|i: int| 0 <= i < s.len() ==> !is_meta(#[trigger] s[i])
}

/// `s` holds a metacharacter anywhere but as a leading `*`.
pub open spec fn is_full_glob(s: Seq<char>) -> bool {
    exists|i: int| 0 <= i < s.len() && is_meta(#[trigger] s[i]) && !(i == 0 && s[i] == '*')
}

/// `s` starts with `*`.
pub open spec fn starts_with_star(s: Seq<char>) -> bool {
    s.len() > 0 && s[0] == '*'
}

/// The shape of a pattern, as the mathematical value it stands for.
pub enum ShapeModel {
    Literal(Seq<char>),
    Simple(Seq<char>),
    Full(Seq<char>),
}

/// The shape that a pattern text classifies as.
pub open spec fn classify(s: Seq<char>) -> ShapeModel {
    if is_full_glob(s) {
        ShapeModel::Full(s)
    } else if starts_with_star(s) {
        ShapeModel::Simple(s.drop_first())
    } else {
        ShapeModel::Literal(s)
    }
}

/// The pattern text that a shape was classified from.
pub open spec fn shape_text(m: ShapeModel) -> Seq<char> {
    match m {
        ShapeModel::Literal(t) => t,
        ShapeModel::Simple(t) => seq!['*'] + t,
        ShapeModel::Full(t) => t,
    }
}

/// Classification keeps the whole text.
pub proof fn lemma_classify_text(s: Seq<char>)
    ensures
        shape_text(classify(s)) == s,
{
    if !is_full_glob(s) && starts_with_star(s) {
        assert(seq!['*'] + s.drop_first() =~= s);
    }
}

/// A full glob must be one that the glob engine accepts.
pub open spec fn pattern_usable(s: Seq<char>) -> bool {
    is_full_glob(s) ==> pattern_compiles(s)
}

/// A classified pattern: an exact name, a suffix after a leading `*`, or a
/// full glob (kept as its text, which compiles).
#[derive(Clone, Debug, PartialEq, Eq)]
pub enum GlobType {
    Literal(String),
    Simple(String),
    Full(String),
}

impl View for GlobType {
    type V = ShapeModel;

    open spec fn view(&self) -> ShapeModel {
        match self {
            GlobType::Literal(t) => ShapeModel::Literal(t@),
            GlobType::Simple(t) => ShapeModel::Simple(t@),
            GlobType::Full(t) => ShapeModel::Full(t@),
        }
    }
}

impl GlobType {
    /// The pattern text this shape was classified from.
    pub fn pattern_text(&self) -> (r: String)
        ensures
            r@ == shape_text(self@),
    {
        match self {
            GlobType::Literal(t) => t.clone(),
            GlobType::Simple(t) => {
                let mut r = String::from_str("*");
                r.append(t.as_str());
                proof {
                    reveal_strlit("*");
                }
                r
            },
            GlobType::Full(t) => t.clone(),
        }
    }
}

/// Whether the pattern holds a metacharacter anywhere but as a leading `*`.
pub fn is_full_pattern(glob: &str) -> (r: bool)
    ensures
        r == is_full_glob(glob@),
{
    let n = glob.unicode_len();
    let mut idx: usize = 0;
    while idx < n
        invariant
            n == glob@.len(),
            idx <= n,
            forall|i: int| 0 <= i < idx ==> !(is_meta(#[trigger] glob@[i]) && !(i == 0 && glob@[i] == '*')),
        decreases n - idx,
    {
        let ch = glob.get_char(idx);
        if !(idx == 0 && ch == '*') && (ch == '\\' || ch == '[' || ch == '*' || ch == '?') {
            assert(is_meta(glob@[idx as int]));
            return true;
        }
        idx = idx + 1;
    }
    false
}

/// Classifies a pattern by one scan of its characters.
pub fn determine_type(glob: &str) -> (r: GlobType)
    requires
        pattern_usable(glob@),
    ensures
        r@ == classify(glob@),
        no_meta(glob@) && !starts_with_star(glob@) ==> r@ == ShapeModel::Literal(glob@),
        starts_with_star(glob@) && no_meta(glob@.drop_first()) ==> r@ == ShapeModel::Simple(
            glob@.drop_first(),
        ),
        is_full_glob(glob@) ==> r@ is Full,
{
    let n = glob.unicode_len();
    let mut maybe_simple = false;
    let mut idx: usize = 0;
    while idx < n
        invariant
            n == glob@.len(),
            idx <= n,
            maybe_simple == starts_with_star(glob@) || (idx == 0 && !maybe_simple),
            idx > 0 ==> (maybe_simple == starts_with_star(glob@)),
            forall|i: int| 0 <= i < idx ==> !(is_meta(#[trigger] glob@[i]) && !(i == 0 && glob@[i] == '*')),
        decreases n - idx,
    {
        let ch = glob.get_char(idx);
        if idx == 0 && ch == '*' {
            maybe_simple = true;
        } else if ch == '\\' || ch == '[' || ch == '*' || ch == '?' {
            assert(is_meta(glob@[idx as int]));
            if idx > 0 {
                assert(glob@.drop_first()[idx - 1] == glob@[idx as int]);
            }
            return GlobType::Full(String::from_str(glob));
        }
        idx = idx + 1;
    }
    assert(!is_full_glob(glob@));
    if maybe_simple {
        GlobType::Simple(String::from_str(glob.substring_char(1, n)))
    } else {
        GlobType::Literal(String::from_str(glob))
    }
}

} // verus!
