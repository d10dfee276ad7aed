//! Hierarchical domain names and their suffix/subdomain algebra.
//!
//! A name is kept in its canonical, dot-terminated textual form, split into
//! labels.  Every label keeps its trailing separator, so
//! `"foo.bar.example.org."` is held as `["foo.", "bar.", "example.", "org."]`
//! and all comparisons work on the label sequence, never on raw strings.

use vstd::prelude::*;

verus! {

/// Index of the first `'.'` in `s`, or `s.len()` if there is none.
pub open spec fn first_dot(s: Seq<char>) -> int
    decreases s.len(),
{
    if s.len() == 0 {
        0
    } else if s[0] == '.' {
        0
    } else {
        1 + first_dot(s.drop_first())
    }
}

pub proof fn lemma_first_dot(s: Seq<char>)
    ensures
        0 <= first_dot(s) <= s.len(),
        forall|j: int| 0 <= j < first_dot(s) ==> s[j] != '.',
        first_dot(s) < s.len() ==> s[first_dot(s)] == '.',
    decreases s.len(),
{
    if s.len() == 0 {
    } else if s[0] == '.' {
    } else {
        lemma_first_dot(s.drop_first());
        assert forall|j: int| 0 <= j < first_dot(s) implies s[j] != '.' by {
            if j > 0 {
                assert(s.drop_first()[j - 1] != '.');
            }
        }
    }
}

/// The first dot sits exactly where the first dot is known to sit.
pub proof fn lemma_first_dot_at(s: Seq<char>, k: int)
    requires
        0 <= k < s.len(),
        s[k] == '.',
        forall|j: int| 0 <= j < k ==> s[j] != '.',
    ensures
        first_dot(s) == k,
    decreases k,
{
    if k == 0 {
    } else {
        assert(s[0] != '.');
        lemma_first_dot_at(s.drop_first(), k - 1);
    }
}

/// Splits a character sequence into its labels.  Every `'.'` ends a label
/// and stays part of it; a trailing run without a dot forms a final label
/// of its own.
pub open spec fn split_labels(s: Seq<char>) -> Seq<Seq<char>>
    decreases s.len(),
    via split_labels_decreases
{
    if s.len() == 0 {
        seq![]
    } else {
        let k = first_dot(s);
        if k == s.len() {
            seq![s]
        } else {
            seq![s.take(k + 1)] + split_labels(s.skip(k + 1))
        }
    }
}

#[via_fn]
proof fn split_labels_decreases(s: Seq<char>) {
    lemma_first_dot(s);
}

/// The canonical text of a label sequence: the labels, concatenated.
pub open spec fn labels_text(ls: Seq<Seq<char>>) -> Seq<char>
    decreases ls.len(),
{
    if ls.len() == 0 {
        seq![]
    } else {
        ls[0] + labels_text(ls.drop_first())
    }
}

pub proof fn lemma_labels_text_push(ls: Seq<Seq<char>>, l: Seq<char>)
    ensures
        labels_text(ls.push(l)) == labels_text(ls) + l,
    decreases ls.len(),
{
    if ls.len() == 0 {
        assert(ls.push(l).drop_first() =~= ls);
        assert(labels_text(ls.push(l)) =~= labels_text(ls) + l);
    } else {
        assert(ls.push(l).drop_first() =~= ls.drop_first().push(l));
        lemma_labels_text_push(ls.drop_first(), l);
        assert(labels_text(ls.push(l)) =~= labels_text(ls) + l);
    }
}

/// One whole label: non-empty, dot-terminated, no interior dot.
pub open spec fn wf_label(l: Seq<char>) -> bool {
    &&& l.len() >= 1
    &&& l[l.len() - 1] == '.'
    &&& forall|j: int| 0 <= j < l.len() - 1 ==> l[j] != '.'
}

/// A well-formed label sequence: at least one label, each one whole.
pub open spec fn wf_labels(ls: Seq<Seq<char>>) -> bool {
    &&& ls.len() >= 1
    &&& forall|i: int| 0 <= i < ls.len() ==> wf_label(#[trigger] ls[i])
}

/// Splitting a single whole label yields exactly that label.
pub proof fn lemma_split_whole_label(b: Seq<char>)
    requires
        wf_label(b),
    ensures
        split_labels(b) == seq![b],
{
    lemma_first_dot_at(b, b.len() - 1);
    let k = first_dot(b);
    assert(b.take(k + 1) =~= b);
    assert(b.skip(k + 1).len() == 0);
    assert(split_labels(b.skip(k + 1)) =~= Seq::<Seq<char>>::empty());
    assert(split_labels(b) == seq![b.take(k + 1)] + split_labels(b.skip(k + 1)));
    assert(split_labels(b) =~~= seq![b]);
}

/// Splitting distributes over concatenation whenever the left part is empty
/// or ends with a separator.
pub proof fn lemma_split_labels_concat(a: Seq<char>, b: Seq<char>)
    requires
        a.len() == 0 || a[a.len() - 1] == '.',
    ensures
        split_labels(a + b) == split_labels(a) + split_labels(b),
    decreases a.len(),
{
    if a.len() == 0 {
        assert(a + b =~= b);
        assert(split_labels(a + b) =~= split_labels(a) + split_labels(b));
    } else {
        let k = first_dot(a);
        lemma_first_dot(a);
        if k == a.len() {
            assert(a[a.len() - 1] != '.');
            assert(false);
        }
        lemma_first_dot_at(a + b, k);
        assert((a + b).take(k + 1) =~= a.take(k + 1));
        assert((a + b).skip(k + 1) =~= a.skip(k + 1) + b);
        if k + 1 < a.len() {
            assert(a.skip(k + 1)[a.skip(k + 1).len() - 1] == a[a.len() - 1]);
        }
        lemma_split_labels_concat(a.skip(k + 1), b);
        assert(split_labels(a + b) =~= split_labels(a) + split_labels(b));
    }
}

/// A dot-terminated text splits into well-formed labels.
pub proof fn lemma_split_labels_wf(s: Seq<char>)
    requires
        s.len() > 0,
        s[s.len() - 1] == '.',
    ensures
        wf_labels(split_labels(s)),
    decreases s.len(),
{
    let k = first_dot(s);
    lemma_first_dot(s);
    if k == s.len() {
        assert(s[s.len() - 1] != '.');
        assert(false);
    }
    assert(wf_label(s.take(k + 1)));
    if k + 1 == s.len() {
        assert(s.skip(k + 1).len() == 0);
        assert(split_labels(s.skip(k + 1)) =~= Seq::<Seq<char>>::empty());
        assert(split_labels(s) =~~= seq![s.take(k + 1)]);
    } else {
        assert(s.skip(k + 1)[s.skip(k + 1).len() - 1] == s[s.len() - 1]);
        lemma_split_labels_wf(s.skip(k + 1));
        assert forall|i: int| 0 <= i < split_labels(s).len() implies wf_label(
            #[trigger] split_labels(s)[i],
        ) by {
            if i > 0 {
                assert(split_labels(s)[i] == split_labels(s.skip(k + 1))[i - 1]);
            }
        }
    }
}

/// The labels of a dot-terminated text concatenate back to that text.
pub proof fn lemma_split_labels_text(s: Seq<char>)
    requires
        s.len() == 0 || s[s.len() - 1] == '.',
    ensures
        labels_text(split_labels(s)) == s,
    decreases s.len(),
{
    if s.len() == 0 {
        assert(labels_text(split_labels(s)) =~= s);
    } else {
        let k = first_dot(s);
        lemma_first_dot(s);
        if k == s.len() {
            assert(s[s.len() - 1] != '.');
            assert(false);
        }
        if k + 1 < s.len() {
            assert(s.skip(k + 1)[s.skip(k + 1).len() - 1] == s[s.len() - 1]);
        }
        lemma_split_labels_text(s.skip(k + 1));
        assert(split_labels(s).drop_first() =~= split_labels(s.skip(k + 1)));
        assert(labels_text(split_labels(s)) =~= s.take(k + 1) + s.skip(k + 1));
        assert(s.take(k + 1) + s.skip(k + 1) =~= s);
    }
}

/// Appends the root separator unless the text already ends with it.
pub open spec fn normalize(s: Seq<char>) -> Seq<char> {
    if s.len() > 0 && s[s.len() - 1] == '.' {
        s
    } else {
        s + seq!['.']
    }
}

/// A fully-qualified, dot-terminated domain name, held as its sequence of
/// labels.
pub struct Dname {
    parts: Vec<String>,
}

impl View for Dname {
    type V = Seq<Seq<char>>;

    closed spec fn view(&self) -> Seq<Seq<char>> {
        Seq::new(self.parts@.len(), |i: int| self.parts@[i]@)
    }
}

impl Dname {
    /// Every constructed name satisfies this shape: a non-empty sequence of
    /// whole labels.
    pub open spec fn wf(&self) -> bool {
        wf_labels(self@)
    }

    /// The canonical text the name renders to.
    pub open spec fn text(&self) -> Seq<char> {
        labels_text(self@)
    }

    /// Builds a name from its textual form, appending the trailing
    /// separator if it is absent, and splitting at every separator.
    pub fn new(domain: String) -> (r: Dname)
        requires
            domain@.len() > 0,
        ensures
            r@ == split_labels(normalize(domain@)),
            r.wf(),
            r.text() == normalize(domain@),
    {
        let len = domain.as_str().unicode_len();
        let last = domain.as_str().get_char(len - 1);
        let s: String = if last == '.' {
            domain
        } else {
            proof {
                reveal_strlit(".");
            }
            domain.concat(".")
        };
        proof {
            assert(s@ =~= normalize(domain@));
        }
        let n = s.as_str().unicode_len();
        let mut parts: Vec<String> = Vec::new();
        let mut start: usize = 0;
        let mut i: usize = 0;
        while i < n
            invariant
                start <= i <= n,
                n == s@.len(),
                n >= 1,
                s@[n - 1] == '.',
                start == 0 || s@[start - 1] == '.',
                Seq::new(parts@.len(), |t: int| parts@[t]@) == split_labels(s@.take(start as int)),
                forall|j: int| start <= j < i ==> s@[j] != '.',
            decreases n - i,
        {
            let c = s.as_str().get_char(i);
            if c == '.' {
                let label = s.as_str().substring_char(start, i + 1).to_owned();
                proof {
                    let sv = s@;
                    let st = start as int;
                    let ii = i as int;
                    assert(label@ =~= sv.subrange(st, ii + 1));
                    assert(wf_label(label@));
                    lemma_split_whole_label(label@);
                    assert(sv.take(ii + 1) =~= sv.take(st) + label@);
                    if st > 0 {
                        assert(sv.take(st)[sv.take(st).len() - 1] == sv[st - 1]);
                    }
                    lemma_split_labels_concat(sv.take(st), label@);
                }
                let ghost old_parts = Seq::new(parts@.len(), |t: int| parts@[t]@);
                parts.push(label);
                proof {
                    assert(Seq::new(parts@.len(), |t: int| parts@[t]@) =~= old_parts.push(
                        s@.subrange(start as int, i + 1),
                    ));
                    assert(Seq::new(parts@.len(), |t: int| parts@[t]@) =~= split_labels(
                        s@.take(i + 1),
                    ));
                }
                start = i + 1;
            }
            i = i + 1;
        }
        proof {
            if start < n {
                assert(s@[n - 1] != '.');
                assert(false);
            }
            assert(s@.take(n as int) =~= s@);
            lemma_split_labels_wf(s@);
            lemma_split_labels_text(s@);
        }
        Dname { parts }
    }

    /// The canonical textual form of the name.
    pub fn to_string(&self) -> (r: String)
        ensures
            r@ == self.text(),
    {
        let mut out = String::new();
        let n = self.parts.len();
        let mut i: usize = 0;
        while i < n
            invariant
                i <= n,
                n == self@.len(),
                out@ == labels_text(self@.take(i as int)),
            decreases n - i,
        {
            out.append(self.parts[i].as_str());
            proof {
                assert(self@.take(i + 1) =~= self@.take(i as int).push(self@[i as int]));
                lemma_labels_text_push(self@.take(i as int), self@[i as int]);
            }
            i = i + 1;
        }
        proof {
            assert(self@.take(n as int) =~= self@);
        }
        out
    }

    /// The name with its left-most label removed, as text.
    pub fn strip_subdomain(&self) -> (r: String)
        requires
            self@.len() >= 1,
        ensures
            r@ == labels_text(self@.drop_first()),
    {
        let mut out = String::new();
        let n = self.parts.len();
        let mut i: usize = 1;
        while i < n
            invariant
                1 <= i <= n,
                n == self@.len(),
                out@ == labels_text(self@.subrange(1, i as int)),
            decreases n - i,
        {
            out.append(self.parts[i].as_str());
            proof {
                assert(self@.subrange(1, i + 1) =~= self@.subrange(1, i as int).push(
                    self@[i as int],
                ));
                lemma_labels_text_push(self@.subrange(1, i as int), self@[i as int]);
            }
            i = i + 1;
        }
        proof {
            assert(self@.subrange(1, n as int) =~= self@.drop_first());
        }
        out
    }

    /// The number of labels in the name.
    pub fn label_count(&self) -> (r: usize)
        ensures
            r == self@.len(),
    {
        self.parts.len()
    }

    /// True exactly when `other`'s labels are a trailing run of this name's
    /// labels; equal names end with each other.
    pub fn ends_with(&self, other: &Dname) -> (r: bool)
        ensures
            r == other@.is_suffix_of(self@),
    {
        let sl = self.parts.len();
        let ol = other.parts.len();
        if sl < ol {
            proof {
                assert(!other@.is_suffix_of(self@));
            }
            return false;
        }
        let mut j: usize = 0;
        while j < ol
            invariant
                j <= ol <= sl,
                sl == self@.len(),
                ol == other@.len(),
                forall|t: int| 0 <= t < j ==> self@[sl - 1 - t] == #[trigger] other@[ol - 1 - t],
            decreases ol - j,
        {
            let a: &String = &self.parts[sl - 1 - j];
            let b: &String = &other.parts[ol - 1 - j];
            if !a.eq(b) {
                proof {
                    let t = j as int;
                    assert(self@[sl - 1 - t] != other@[ol - 1 - t]);
                    if other@.is_suffix_of(self@) {
                        assert(other@ =~= self@.subrange(sl - ol, sl as int));
                        assert(other@[ol - 1 - t] == self@[sl - 1 - t]);
                    }
                }
                return false;
            }
            j = j + 1;
        }
        proof {
            assert forall|m: int| 0 <= m < ol implies other@[m] == self@.subrange(
                sl - ol,
                sl as int,
            )[m] by {
                let t = ol - 1 - m;
                assert(self@[sl - 1 - t] == other@[ol - 1 - t]);
            }
            assert(other@ =~= self@.subrange(sl - ol, sl as int));
        }
        true
    }

    /// True when `other` is a strict child of this name: it has more labels
    /// and ends with this name.
    pub fn is_subdomain(&self, other: &Dname) -> (r: bool)
        ensures
            r == (other@.len() > self@.len() && self@.is_suffix_of(other@)),
    {
        other.parts.len() > self.parts.len() && other.ends_with(self)
    }

    /// True when this name is a strict child of `other`.
    pub fn is_subdomain_of(&self, other: &Dname) -> (r: bool)
        ensures
            r == (self@.len() > other@.len() && other@.is_suffix_of(self@)),
    {
        self.parts.len() > other.parts.len() && self.ends_with(other)
    }
}

/// Strict subdomains are exactly the names that end with the other name but
/// differ from it: for label sequences `a` and `b`, `b` being a shorter
/// suffix of `a` is the same as `b` being a suffix of `a` other than `a`
/// itself.
pub proof fn lemma_subdomain_strict(a: Seq<Seq<char>>, b: Seq<Seq<char>>)
    ensures
        (a.len() > b.len() && b.is_suffix_of(a)) <==> (b.is_suffix_of(a) && a != b),
{
    if b.is_suffix_of(a) {
        if a.len() == b.len() {
            assert(a =~= b);
        }
        if a == b {
            assert(a.len() == b.len());
        }
    }
}

} // verus!
