//! The registry of entries and the lookup of a file name's MIME types.
use vstd::prelude::*;

use crate::entry::{matches_spec, v1_entry, v2_entry, Glob, GlobModel};

verus! {

/// The values of a sequence of entries.
pub open spec fn models(globs: Seq<Glob>) -> Seq<GlobModel> {
    globs.map_values(|g: Glob| g@)
}

/// The characters of each string.
pub open spec fn string_views(v: Seq<String>) -> Seq<Seq<char>> {
    v.map_values(|s: String| s@)
}

/// The MIME type of each entry.
pub open spec fn mime_types(s: Seq<GlobModel>) -> Seq<Seq<char>> {
    s.map_values(|g: GlobModel| g.mime_type)
}

spec fn ref_models(s: Seq<&Glob>) -> Seq<GlobModel> {
    s.map_values(|g: &Glob| g@)
}

/// Places `g` after every entry of `s` whose weight is at least its own.
pub open spec fn insert_by_weight(s: Seq<GlobModel>, g: GlobModel) -> Seq<GlobModel>
    decreases s.len(),
{
    if s.len() == 0 {
        seq![g]
    } else if s[0].weight < g.weight {
        seq![g] + s
    } else {
        seq![s[0]] + insert_by_weight(s.drop_first(), g)
    }
}

/// The entries of `globs` that match `name`, highest weight first, and
/// entries of equal weight in the order of `globs`.
pub open spec fn ranked(globs: Seq<GlobModel>, name: Seq<char>) -> Seq<GlobModel>
    decreases globs.len(),
{
    if globs.len() == 0 {
        Seq::empty()
    } else {
        let r = ranked(globs.drop_last(), name);
        if matches_spec(globs.last(), name) {
            insert_by_weight(r, globs.last())
        } else {
            r
        }
    }
}

/// No weight in `s` is below a later one.
pub open spec fn weight_descending(s: Seq<GlobModel>) -> bool {
    forall|i: int, j: int| 0 <= i < j < s.len() ==> #[trigger] s[i].weight >= #[trigger] s[j].weight
}

/// The entries of `s` of weight `w`, in order.
pub open spec fn of_weight(s: Seq<GlobModel>, w: int) -> Seq<GlobModel> {
    s.filter(|g: GlobModel| g.weight == w)
}

/// The entries of `s` that match `name` and have weight `w`, in order.
pub open spec fn matching_of_weight(s: Seq<GlobModel>, name: Seq<char>, w: int) -> Seq<GlobModel> {
    s.filter(|g: GlobModel| matches_spec(g, name) && g.weight == w)
}

proof fn lemma_filter_single(g: GlobModel, p: spec_fn(GlobModel) -> bool)
    ensures
        seq![g].filter(p) == (if p(g) {
            seq![g]
        } else {
            Seq::<GlobModel>::empty()
        }),
{
    reveal(Seq::filter);
    assert(seq![g].drop_last() =~= Seq::<GlobModel>::empty());
    assert(Seq::<GlobModel>::empty().filter(p) =~= Seq::<GlobModel>::empty());
    assert(Seq::<GlobModel>::empty().push(g) =~= seq![g]);
}

proof fn lemma_insert_by_weight(s: Seq<GlobModel>, g: GlobModel, w: int)
    requires
        weight_descending(s),
    ensures
        weight_descending(insert_by_weight(s, g)),
        insert_by_weight(s, g).len() == s.len() + 1,
        insert_by_weight(s, g)[0] == g || (s.len() > 0 && insert_by_weight(s, g)[0] == s[0]),
        of_weight(insert_by_weight(s, g), w) == (if g.weight == w {
            of_weight(s, w).push(g)
        } else {
            of_weight(s, w)
        }),
    decreases s.len(),
{
    let p = |x: GlobModel| x.weight == w;
    let ins = insert_by_weight(s, g);
    lemma_filter_single(g, p);
    if s.len() == 0 {
        assert(s =~= Seq::<GlobModel>::empty());
        reveal(Seq::filter);
        assert(s.filter(p) =~= Seq::<GlobModel>::empty());
        assert(Seq::<GlobModel>::empty().push(g) =~= seq![g]);
    } else if s[0].weight < g.weight {
        Seq::filter_distributes_over_add(seq![g], s, p);
        if g.weight == w {
            assert forall|k: int| 0 <= k < s.len() implies #[trigger] s[k].weight != w by {
                if k > 0 {
                    assert(s[0].weight >= s[k].weight);
                }
            }
            lemma_none_of_weight(s, w);
            assert(s.filter(p) =~= Seq::<GlobModel>::empty());
            assert(seq![g] + s.filter(p) =~= s.filter(p).push(g));
        } else {
            assert(Seq::<GlobModel>::empty() + s.filter(p) =~= s.filter(p));
        }
        assert forall|i: int, j: int| 0 <= i < j < ins.len() implies #[trigger] ins[i].weight
            >= #[trigger] ins[j].weight by {
            if i > 0 {
                assert(ins[i] == s[i - 1] && ins[j] == s[j - 1]);
            } else {
                assert(ins[j] == s[j - 1]);
                if j - 1 > 0 {
                    assert(s[0].weight >= s[j - 1].weight);
                }
            }
        }
    } else {
        let rest = s.drop_first();
        assert(weight_descending(rest)) by {
            assert forall|i: int, j: int| 0 <= i < j < rest.len() implies #[trigger] rest[i].weight
                >= #[trigger] rest[j].weight by {
                assert(rest[i] == s[i + 1] && rest[j] == s[j + 1]);
            }
        }
        lemma_insert_by_weight(rest, g, w);
        let t = insert_by_weight(rest, g);
        assert(s =~= seq![s[0]] + rest);
        lemma_filter_single(s[0], p);
        Seq::filter_distributes_over_add(seq![s[0]], rest, p);
        Seq::filter_distributes_over_add(seq![s[0]], t, p);
        if g.weight == w {
            assert(seq![s[0]].filter(p) + rest.filter(p).push(g) =~= (seq![s[0]].filter(p)
                + rest.filter(p)).push(g));
        }
        assert(ins == seq![s[0]] + t);
        assert forall|i: int, j: int| 0 <= i < j < ins.len() implies #[trigger] ins[i].weight
            >= #[trigger] ins[j].weight by {
            if i > 0 {
                assert(ins[i] == t[i - 1] && ins[j] == t[j - 1]);
            } else {
                assert(ins[j] == t[j - 1]);
                if rest.len() > 0 {
                    assert(s[0].weight >= s[1].weight);
                }
                if j - 1 > 0 {
                    assert(t[0].weight >= t[j - 1].weight);
                }
            }
        }
    }
}

proof fn lemma_none_of_weight(s: Seq<GlobModel>, w: int)
    requires
        forall|k: int| 0 <= k < s.len() ==> #[trigger] s[k].weight != w,
    ensures
        of_weight(s, w) == Seq::<GlobModel>::empty(),
    decreases s.len(),
{
    reveal(Seq::filter);
    if s.len() > 0 {
        assert forall|k: int| 0 <= k < s.drop_last().len() implies #[trigger] s.drop_last()[k].weight
            != w by {
            assert(s.drop_last()[k] == s[k]);
        }
        lemma_none_of_weight(s.drop_last(), w);
        assert(s.last() == s[s.len() - 1]);
    } else {
        assert(of_weight(s, w) =~= Seq::<GlobModel>::empty());
    }
}

/// The position at which `insert_by_weight` places `g` in `s`.
proof fn lemma_insert_at(s: Seq<GlobModel>, g: GlobModel, j: int)
    requires
        0 <= j <= s.len(),
        forall|k: int| 0 <= k < j ==> #[trigger] s[k].weight >= g.weight,
        j < s.len() ==> s[j].weight < g.weight,
    ensures
        insert_by_weight(s, g) == s.insert(j, g),
    decreases j,
{
    if j == 0 {
        if s.len() == 0 {
            assert(s.insert(0, g) =~= seq![g]);
        } else {
            assert(s.insert(0, g) =~= seq![g] + s);
        }
    } else {
        let rest = s.drop_first();
        assert forall|k: int| 0 <= k < j - 1 implies #[trigger] rest[k].weight >= g.weight by {
            assert(rest[k] == s[k + 1]);
        }
        lemma_insert_at(rest, g, j - 1);
        assert(s.insert(j, g) =~= seq![s[0]] + rest.insert(j - 1, g));
    }
}

/// A lookup lists the matching entries by descending weight, and entries of
/// equal weight in the order in which they were added.
pub proof fn lemma_lookup_order(globs: Seq<GlobModel>, name: Seq<char>)
    ensures
        weight_descending(ranked(globs, name)),
        forall|w: int| #[trigger] of_weight(ranked(globs, name), w) == matching_of_weight(globs, name, w),
    decreases globs.len(),
{
    if globs.len() == 0 {
        assert forall|w: int| #[trigger] of_weight(ranked(globs, name), w) == matching_of_weight(globs, name, w) by {
            reveal(Seq::filter);
        }
    } else {
        lemma_lookup_order(globs.drop_last(), name);
        let r = ranked(globs.drop_last(), name);
        let g = globs.last();
        assert forall|w: int| #[trigger] of_weight(ranked(globs, name), w) == matching_of_weight(globs, name, w) by {
            reveal(Seq::filter);
            assert(of_weight(r, w) == matching_of_weight(globs.drop_last(), name, w));
            if matches_spec(g, name) {
                lemma_insert_by_weight(r, g, w);
            }
        }
        if matches_spec(g, name) {
            lemma_insert_by_weight(r, g, 0);
        }
    }
}

/// A lookup finds nothing exactly where no entry matches.
pub proof fn lemma_lookup_empty(globs: Seq<GlobModel>, name: Seq<char>)
    ensures
        ranked(globs, name).len() == 0 <==> forall|i: int| 0 <= i < globs.len() ==> !matches_spec(#[trigger] globs[i], name),
    decreases globs.len(),
{
    if globs.len() > 0 {
        lemma_lookup_empty(globs.drop_last(), name);
        let r = ranked(globs.drop_last(), name);
        let last = globs.len() - 1;
        assert(globs.last() == globs[last]);
        if matches_spec(globs.last(), name) {
            lemma_insert_len(r, globs.last());
        } else {
            assert forall|i: int| 0 <= i < globs.len() implies !matches_spec(#[trigger] globs[i], name) <== (forall|i: int| 0 <= i < globs.drop_last().len() ==> !matches_spec(#[trigger] globs.drop_last()[i], name)) by {
                if i < last {
                    assert(globs.drop_last()[i] == globs[i]);
                }
            }
            assert forall|i: int| 0 <= i < globs.drop_last().len() implies !matches_spec(#[trigger] globs.drop_last()[i], name) <== (forall|i: int| 0 <= i < globs.len() ==> !matches_spec(#[trigger] globs[i], name)) by {
                assert(globs.drop_last()[i] == globs[i]);
            }
        }
    }
}

proof fn lemma_insert_len(s: Seq<GlobModel>, g: GlobModel)
    ensures
        insert_by_weight(s, g).len() == s.len() + 1,
    decreases s.len(),
{
    if s.len() > 0 && s[0].weight >= g.weight {
        lemma_insert_len(s.drop_first(), g);
    }
}

/// A line that a registry file holds as a comment or a blank.
pub open spec fn skipped(line: Seq<char>) -> bool {
    line.len() == 0 || line[0] == '#'
}

/// The entries that the lines of a file `type:pattern` give, in order.
pub open spec fn v1_entries(lines: Seq<Seq<char>>) -> Seq<GlobModel>
    decreases lines.len(),
{
    if lines.len() == 0 {
        Seq::empty()
    } else {
        let prev = v1_entries(lines.drop_last());
        let l = lines.last();
        if !skipped(l) && v1_entry(l) is Some {
            prev.push(v1_entry(l)->0)
        } else {
            prev
        }
    }
}

/// The entries that the lines of a file `weight:type:pattern[:cs]` give, in order.
pub open spec fn v2_entries(lines: Seq<Seq<char>>) -> Seq<GlobModel>
    decreases lines.len(),
{
    if lines.len() == 0 {
        Seq::empty()
    } else {
        let prev = v2_entries(lines.drop_last());
        let l = lines.last();
        if !skipped(l) && v2_entry(l) is Some {
            prev.push(v2_entry(l)->0)
        } else {
            prev
        }
    }
}

/// The characters of each line.
pub open spec fn line_views(lines: Seq<String>) -> Seq<Seq<char>> {
    lines.map_values(|l: String| l@)
}

/// Whether a line is a comment or a blank.
fn is_skipped(line: &str) -> (r: bool)
    ensures
        r == skipped(line@),
{
    line.unicode_len() == 0 || line.get_char(0) == '#'
}

/// Reads the lines of a file `type:pattern`, dropping comments, blanks and
/// lines that do not parse.
pub fn read_globs_v1_from_lines(lines: &Vec<String>) -> (r: Vec<Glob>)
    ensures
        models(r@) == v1_entries(line_views(lines@)),
{
    let mut res: Vec<Glob> = Vec::new();
    let mut i: usize = 0;
    while i < lines.len()
        invariant
            i <= lines@.len(),
            models(res@) == v1_entries(line_views(lines@).take(i as int)),
        decreases lines@.len() - i,
    {
        let line = lines[i].as_str();
        assert(line_views(lines@).take(i as int + 1).drop_last() =~= line_views(lines@).take(i as int));
        if !is_skipped(line) {
            match Glob::from_v1_string(line) {
                Some(g) => {
                    res.push(g);
                },
                None => {},
            }
        }
        assert(models(res@) =~= v1_entries(line_views(lines@).take(i as int + 1)));
        i = i + 1;
    }
    assert(line_views(lines@).take(lines@.len() as int) =~= line_views(lines@));
    res
}

/// Reads the lines of a file `weight:type:pattern[:cs]`, dropping comments,
/// blanks and lines that do not parse.
pub fn read_globs_v2_from_lines(lines: &Vec<String>) -> (r: Vec<Glob>)
    ensures
        models(r@) == v2_entries(line_views(lines@)),
{
    let mut res: Vec<Glob> = Vec::new();
    let mut i: usize = 0;
    while i < lines.len()
        invariant
            i <= lines@.len(),
            models(res@) == v2_entries(line_views(lines@).take(i as int)),
        decreases lines@.len() - i,
    {
        let line = lines[i].as_str();
        assert(line_views(lines@).take(i as int + 1).drop_last() =~= line_views(lines@).take(i as int));
        if !is_skipped(line) {
            match Glob::from_v2_string(line) {
                Some(g) => {
                    res.push(g);
                },
                None => {},
            }
        }
        assert(models(res@) =~= v2_entries(line_views(lines@).take(i as int + 1)));
        i = i + 1;
    }
    assert(line_views(lines@).take(lines@.len() as int) =~= line_views(lines@));
    res
}

/// An append-only collection of entries.
#[derive(Debug)]
pub struct GlobMap {
    globs: Vec<Glob>,
}

impl View for GlobMap {
    type V = Seq<GlobModel>;

    closed spec fn view(&self) -> Seq<GlobModel> {
        models(self.globs@)
    }
}

impl GlobMap {
    /// An empty registry.
    pub fn new() -> (r: GlobMap)
        ensures
            r@ == Seq::<GlobModel>::empty(),
    {
        let r = GlobMap { globs: Vec::new() };
        assert(r@ =~= Seq::<GlobModel>::empty());
        r
    }

    /// Appends one entry.
    pub fn add_glob(&mut self, glob: Glob)
        ensures
            final(self)@ == old(self)@.push(glob@),
    {
        self.globs.push(glob);
        assert(self@ =~= old(self)@.push(glob@));
    }

    /// Appends entries, in their order.
    pub fn add_globs(&mut self, globs: Vec<Glob>)
        ensures
            final(self)@ == old(self)@ + models(globs@),
    {
        let ghost added = globs@;
        let mut globs = globs;
        self.globs.append(&mut globs);
        assert(self@ =~= old(self)@ + models(added));
    }

    /// The MIME types of the entries that match the file name, highest
    /// weight first; none where no entry matches.
    pub fn lookup_mime_type_for_file_name(&self, file_name: &str) -> (r: Option<Vec<String>>)
        ensures
            r is None <==> forall|i: int| 0 <= i < self@.len() ==> !matches_spec(#[trigger] self@[i], file_name@),
            r matches Some(v) ==> string_views(v@) == mime_types(ranked(self@, file_name@)),
    {
        let n = self.globs.len();
        let mut sorted: Vec<&Glob> = Vec::new();
        let mut i: usize = 0;
        while i < n
            invariant
                n == self.globs@.len(),
                i <= n,
                ref_models(sorted@) == ranked(self@.take(i as int), file_name@),
            decreases n - i,
        {
            let g = &self.globs[i];
            let ghost prev = ref_models(sorted@);
            assert(self@.take(i as int + 1).drop_last() =~= self@.take(i as int));
            assert(self@.take(i as int + 1).last() == g@);
            if g.compare(file_name) {
                let w = g.weight();
                let mut j: usize = 0;
                while j < sorted.len() && sorted[j].weight() >= w
                    invariant
                        j <= sorted@.len(),
                        prev == ref_models(sorted@),
                        w as int == g@.weight,
                        forall|k: int| 0 <= k < j ==> #[trigger] prev[k].weight >= g@.weight,
                    decreases sorted@.len() - j,
                {
                    j = j + 1;
                }
                proof {
                    lemma_insert_at(prev, g@, j as int);
                }
                sorted.insert(j, g);
                assert(ref_models(sorted@) =~= prev.insert(j as int, g@));
            }
            i = i + 1;
        }
        assert(self@.take(n as int) =~= self@);
        proof {
            lemma_lookup_empty(self@, file_name@);
        }
        if sorted.len() == 0 {
            return None;
        }
        let mut res: Vec<String> = Vec::new();
        let mut k: usize = 0;
        while k < sorted.len()
            invariant
                k <= sorted@.len(),
                string_views(res@) == mime_types(ref_models(sorted@).take(k as int)),
            decreases sorted@.len() - k,
        {
            let ghost ms = ref_models(sorted@);
            let m = sorted[k].mime_type().clone();
            assert(m@ == ms[k as int].mime_type);
            let ghost before = res@;
            res.push(m);
            assert(ms.take(k as int + 1) =~= ms.take(k as int).push(ms[k as int]));
            assert(string_views(res@) =~= string_views(before).push(m@));
            assert(mime_types(ms.take(k as int + 1)) =~= mime_types(ms.take(k as int)).push(
                ms[k as int].mime_type,
            ));
            assert(string_views(res@) =~= mime_types(ref_models(sorted@).take(k as int + 1)));
            k = k + 1;
        }
        assert(ref_models(sorted@).take(k as int) =~= ref_models(sorted@));
        Some(res)
    }
}

} // verus!
