//! Header lists: ordered name/value pairs whose names compare
//! case-insensitively, with last-write-wins insertion.

use vstd::prelude::*;

verus! {

/// One response or request header.
pub struct Header {
    pub name: String,
    pub value: String,
}

/// The mathematical image of a header: its name and value as
/// character sequences.
pub struct HeaderView {
    pub name: Seq<char>,
    pub value: Seq<char>,
}

impl View for Header {
    type V = HeaderView;

    open spec fn view(&self) -> HeaderView {
        HeaderView { name: self.name@, value: self.value@ }
    }
}

/// The image of a whole header list.
pub open spec fn views(hs: Seq<Header>) -> Seq<HeaderView> {
    hs.map_values(|h: Header| h@)
}

/// The image of a list is taken header by header.
pub proof fn lemma_views_index(hs: Seq<Header>, i: int)
    requires
        0 <= i < hs.len(),
    ensures
        views(hs).len() == hs.len(),
        views(hs)[i] == hs[i]@,
{
}

/// ASCII upper-case letters fold to lower case; every other character
/// stands for itself.
pub open spec fn lower_char(c: char) -> char {
    if 'A' <= c && c <= 'Z' {
        ((c as u8) + 32) as char
    } else {
        c
    }
}

/// A name folded to lower case, the canonical form under which header
/// names are compared.
pub open spec fn lower(s: Seq<char>) -> Seq<char> {
    s.map_values(|c: char| lower_char(c))
}

/// Header names are equal when they agree up to ASCII case.
pub open spec fn name_eq(a: Seq<char>, b: Seq<char>) -> bool {
    lower(a) == lower(b)
}

/// The value of the first header of the list whose name matches, if any.
pub open spec fn lookup(hs: Seq<HeaderView>, name: Seq<char>) -> Option<Seq<char>>
    decreases hs.len(),
{
    if hs.len() == 0 {
        None
    } else if name_eq(hs[0].name, name) {
        Some(hs[0].value)
    } else {
        lookup(hs.drop_first(), name)
    }
}

/// The list after writing `value` under `name`: the first header with a
/// matching name keeps its place and spelling but takes the new value;
/// when no name matches, the header is appended.
pub open spec fn written(hs: Seq<HeaderView>, name: Seq<char>, value: Seq<char>) -> Seq<HeaderView>
    decreases hs.len(),
{
    if hs.len() == 0 {
        seq![HeaderView { name, value }]
    } else if name_eq(hs[0].name, name) {
        seq![HeaderView { name: hs[0].name, value }] + hs.drop_first()
    } else {
        seq![hs[0]] + written(hs.drop_first(), name, value)
    }
}

fn lower_char_exec(c: char) -> (r: char)
    ensures
        r == lower_char(c),
{
    if 'A' <= c && c <= 'Z' {
        ((c as u8) + 32) as char
    } else {
        c
    }
}

/// Whether two header names are the same up to ASCII case.
pub fn header_name_eq(a: &str, b: &str) -> (r: bool)
    ensures
        r == name_eq(a@, b@),
{
    let a_len = a.unicode_len();
    let b_len = b.unicode_len();
    if a_len != b_len {
        assert(lower(a@).len() != lower(b@).len());
        return false;
    }
    let mut i: usize = 0;
    while i < a_len
        invariant
            a_len == a@.len(),
            b_len == b@.len(),
            a_len == b_len,
            i <= a_len,
            forall|j: int| 0 <= j < i ==> lower(a@)[j] == lower(b@)[j],
        decreases a_len - i,
    {
        let ca = a.get_char(i);
        let cb = b.get_char(i);
        if lower_char_exec(ca) != lower_char_exec(cb) {
            assert(lower(a@)[i as int] != lower(b@)[i as int]);
            return false;
        }
        i += 1;
    }
    assert(lower(a@) =~= lower(b@));
    true
}

/// Writing then reading the same name gives the written value, whatever
/// the list held before.
pub proof fn lemma_lookup_after_write(hs: Seq<HeaderView>, name: Seq<char>, value: Seq<char>)
    ensures
        lookup(written(hs, name, value), name) == Some(value),
    decreases hs.len(),
{
    if hs.len() == 0 {
    } else if name_eq(hs[0].name, name) {
        assert(written(hs, name, value)[0].name == hs[0].name);
    } else {
        lemma_lookup_after_write(hs.drop_first(), name, value);
        assert(written(hs, name, value).drop_first() =~= written(hs.drop_first(), name, value));
    }
}

/// Writing one name leaves every other name's lookup unchanged.
pub proof fn lemma_lookup_other_after_write(
    hs: Seq<HeaderView>,
    name: Seq<char>,
    value: Seq<char>,
    other: Seq<char>,
)
    requires
        !name_eq(name, other),
    ensures
        lookup(written(hs, name, value), other) == lookup(hs, other),
    decreases hs.len(),
{
    if hs.len() == 0 {
        assert(written(hs, name, value).drop_first() =~= Seq::<HeaderView>::empty());
        assert(lookup(Seq::<HeaderView>::empty(), other) is None);
        assert(lookup(written(hs, name, value), other) is None);
    } else if name_eq(hs[0].name, name) {
        assert(!name_eq(hs[0].name, other));
        assert(written(hs, name, value).drop_first() =~= hs.drop_first());
    } else if name_eq(hs[0].name, other) {
        assert(written(hs, name, value)[0] == hs[0]);
        assert(lookup(written(hs, name, value), other) == Some(hs[0].value));
    } else {
        lemma_lookup_other_after_write(hs.drop_first(), name, value, other);
        assert(written(hs, name, value).drop_first() =~= written(hs.drop_first(), name, value));
        assert(written(hs, name, value)[0] == hs[0]);
    }
}

/// When the first `k` headers do not match `name` and the `k`-th does,
/// the lookup returns the `k`-th value.
pub proof fn lemma_lookup_first_match(hs: Seq<HeaderView>, name: Seq<char>, k: int)
    requires
        0 <= k < hs.len(),
        name_eq(hs[k].name, name),
        forall|j: int| 0 <= j < k ==> !name_eq(hs[j].name, name),
    ensures
        lookup(hs, name) == Some(hs[k].value),
    decreases hs.len(),
{
    if k == 0 {
    } else {
        lemma_lookup_first_match(hs.drop_first(), name, k - 1);
    }
}

/// When no header of the list matches `name`, the lookup is empty.
pub proof fn lemma_lookup_no_match(hs: Seq<HeaderView>, name: Seq<char>)
    requires
        forall|j: int| 0 <= j < hs.len() ==> !name_eq(hs[j].name, name),
    ensures
        lookup(hs, name) is None,
    decreases hs.len(),
{
    if hs.len() == 0 {
    } else {
        lemma_lookup_no_match(hs.drop_first(), name);
    }
}

/// When the first `k` headers do not match `name` and the `k`-th does,
/// the write updates the `k`-th value in place.
pub proof fn lemma_written_first_match(
    hs: Seq<HeaderView>,
    name: Seq<char>,
    value: Seq<char>,
    k: int,
)
    requires
        0 <= k < hs.len(),
        name_eq(hs[k].name, name),
        forall|j: int| 0 <= j < k ==> !name_eq(hs[j].name, name),
    ensures
        written(hs, name, value) =~= hs.update(
            k,
            HeaderView { name: hs[k].name, value },
        ),
    decreases hs.len(),
{
    if k == 0 {
    } else {
        lemma_written_first_match(hs.drop_first(), name, value, k - 1);
    }
}

/// When no header of the list matches `name`, the write appends.
pub proof fn lemma_written_no_match(hs: Seq<HeaderView>, name: Seq<char>, value: Seq<char>)
    requires
        forall|j: int| 0 <= j < hs.len() ==> !name_eq(hs[j].name, name),
    ensures
        written(hs, name, value) =~= hs.push(HeaderView { name, value }),
    decreases hs.len(),
{
    if hs.len() == 0 {
    } else {
        lemma_written_no_match(hs.drop_first(), name, value);
    }
}

/// A reference to the value of the first header whose name matches.
pub fn lookup_header<'a>(hs: &'a Vec<Header>, name: &str) -> (r: Option<&'a String>)
    ensures
        match r {
            Some(v) => lookup(views(hs@), name@) == Some(v@),
            None => lookup(views(hs@), name@) is None,
        },
{
    let n = hs.len();
    let mut i: usize = 0;
    while i < n
        invariant
            n == hs@.len(),
            i <= n,
            forall|j: int| 0 <= j < i ==> !name_eq(views(hs@)[j].name, name@),
        decreases n - i,
    {
        if header_name_eq(hs[i].name.as_str(), name) {
            proof {
                lemma_lookup_first_match(views(hs@), name@, i as int);
            }
            return Some(&hs[i].value);
        }
        i += 1;
    }
    proof {
        lemma_lookup_no_match(views(hs@), name@);
    }
    None
}

/// Writes `value` under `name`: replaces the value of the first header
/// with a matching name, or appends a new header when none matches.
#[verifier::loop_isolation(false)]
pub fn write_header(hs: &mut Vec<Header>, name: &str, value: String)
    ensures
        views(final(hs)@) == written(views(old(hs)@), name@, value@),
{
    let ghost orig: Seq<HeaderView> = views(hs@);
    let ghost vv: Seq<char> = value@;
    let n = hs.len();
    let mut i: usize = 0;
    while i < n
        invariant
            n == hs@.len(),
            i <= n,
            views(hs@) == orig,
            forall|j: int| 0 <= j < i ==> !name_eq(orig[j].name, name@),
        decreases n - i,
    {
        if header_name_eq(hs[i].name.as_str(), name) {
            let kept_name = hs[i].name.clone();
            let ghost pre: Seq<Header> = hs@;
            let ghost kn: Seq<char> = kept_name@;
            let new_h = Header { name: kept_name, value };
            proof {
                assert(new_h@ == HeaderView { name: kn, value: vv });
                assert(kn == orig[i as int].name) by {
                    lemma_views_index(pre, i as int);
                }
            }
            hs[i] = new_h;
            proof {
                assert(hs@ =~= pre.update(i as int, hs@[i as int]));
                assert(hs@[i as int]@ == HeaderView { name: kn, value: vv });
                lemma_written_first_match(orig, name@, vv, i as int);
                assert forall|j: int| 0 <= j < views(hs@).len() implies views(hs@)[j] == orig.update(
                    i as int,
                    HeaderView { name: orig[i as int].name, value: vv },
                )[j] by {
                    lemma_views_index(hs@, j);
                }
                assert(views(hs@) =~= orig.update(
                    i as int,
                    HeaderView { name: orig[i as int].name, value: vv },
                ));
                assert(views(hs@) == written(orig, name@, vv));
            }
            return;
        }
        i += 1;
    }
    hs.push(Header { name: String::from_str(name), value });
    proof {
        lemma_written_no_match(orig, name@, vv);
        assert(views(hs@) =~= orig.push(HeaderView { name: name@, value: vv }));
        assert(views(hs@) == written(orig, name@, vv));
    }
}

} // verus!
