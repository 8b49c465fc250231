//! The typed identifier: a 64-bit value wrapped with a zero-size compile-time
//! tag naming the entity kind it refers to. Equality, hashing and copying act
//! on the value alone; the tag only keeps identifiers of different kinds from
//! being substituted for one another at compile time.
use vstd::prelude::*;

verus! {

use core::marker::PhantomData;
use crate::codec::spec_encode;
use vstd::std_specs::cmp::PartialEqSpec;

/// The raw value an identifier wraps.
pub type IdValue = u64;

/// A 64-bit identifier tagged with the entity kind `T`. The tag is never
/// instantiated at runtime: it costs nothing and takes no part in equality,
/// hashing or storage.
#[derive(Debug, Hash)]
pub struct Id<T> {
    pub value: IdValue,
    pub phantom: PhantomData<T>,
}

impl<T> Clone for Id<T> {
    /// Copying an identifier is a plain value copy, whatever the tag.
    fn clone(&self) -> (r: Self)
        ensures
            r == *self,
    {
        Id { value: self.value, phantom: PhantomData }
    }
}

impl<T> Copy for Id<T> {}

impl<T> Id<T> {
    /// Wrap a raw value with the tag `T`; never fails.
    pub fn new(value: IdValue) -> (r: Self)
        ensures
            r.value == value,
    {
        Id { value, phantom: PhantomData }
    }
}

impl<T> PartialEq for Id<T> {
    fn eq(&self, other: &Self) -> bool {
        self.value == other.value
    }
}

impl<T> vstd::std_specs::cmp::PartialEqSpecImpl for Id<T> {
    open spec fn obeys_eq_spec() -> bool {
        true
    }

    open spec fn eq_spec(&self, other: &Self) -> bool {
        self.value == other.value
    }
}

impl<T> Eq for Id<T> {}

/// The tag carries no runtime identity: two identifiers with the same tag
/// compare equal exactly when their raw values are equal, and `new` stores
/// the raw value unchanged under every tag, so identifiers minted from one
/// raw value under different tags always hold equal raw values.
pub proof fn lemma_eq_ignores_tag<T>(a: Id<T>, b: Id<T>)
    ensures
        a.eq_spec(&b) <==> a.value == b.value,
{
}

/// The position right after the last `::` separator that starts at a
/// position no greater than `j`; `0` when there is none.
pub open spec fn cut_below(s: Seq<char>, j: int) -> int
    decreases
            (if j >= 0 {
                j + 1
            } else {
                0
            }),
{
    if j < 0 {
        0
    } else if j + 1 < s.len() && s[j] == ':' && s[j + 1] == ':' {
        j + 2
    } else {
        cut_below(s, j - 1)
    }
}

/// The suffix of `s` after its last `::` separator: the kind's own name with
/// any namespace qualification stripped.
pub open spec fn spec_simple_name(s: Seq<char>) -> Seq<char> {
    s.subrange(cut_below(s, s.len() - 2), s.len() as int)
}

/// `cut_below` finds the last separator: a positive cut sits right after a
/// `::`, and no further `::` starts at or above it.
proof fn lemma_cut_is_last_sep(s: Seq<char>, j: int)
    ensures
        0 <= cut_below(s, j),
        cut_below(s, j) > 0 ==> cut_below(s, j) <= j + 2 && s[cut_below(s, j) - 2] == ':'
            && s[cut_below(s, j) - 1] == ':',
        forall|q: int|
            #![trigger s[q], s[q + 1]]
            0 <= q && cut_below(s, j) - 1 <= q <= j && q + 1 < s.len() ==> !(s[q] == ':'
                && s[q + 1] == ':'),
    decreases
            (if j >= 0 {
                j + 1
            } else {
                0
            }),
{
    if j >= 0 && !(j + 1 < s.len() && s[j] == ':' && s[j + 1] == ':') {
        lemma_cut_is_last_sep(s, j - 1);
    }
}

/// Stripping is complete: the simple form of a kind name holds no `::` of
/// its own.
pub proof fn lemma_simple_name_has_no_separator(s: Seq<char>)
    ensures
        forall|q: int|
            #![trigger spec_simple_name(s)[q], spec_simple_name(s)[q + 1]]
            0 <= q < spec_simple_name(s).len() - 1 ==> !(spec_simple_name(s)[q] == ':'
                && spec_simple_name(s)[q + 1] == ':'),
{
    let j = s.len() - 2;
    let cut = cut_below(s, j);
    lemma_cut_is_last_sep(s, j);
    assert forall|q: int|
        #![trigger spec_simple_name(s)[q], spec_simple_name(s)[q + 1]]
        0 <= q < spec_simple_name(s).len() - 1 implies !(spec_simple_name(s)[q] == ':'
        && spec_simple_name(s)[q + 1] == ':') by {
        assert(cut <= s.len());
        assert(spec_simple_name(s).len() == s.len() - cut);
        assert(spec_simple_name(s)[q] == s[cut + q]);
        assert(spec_simple_name(s)[q + 1] == s[cut + q + 1]);
        assert(0 <= cut + q && cut + q <= j && cut + q + 1 < s.len());
    }
}

/// The position right after the last `::` separator of `full`, or `0`.
fn find_cut(full: &str) -> (cut: usize)
    requires
        full@.len() >= 2,
    ensures
        cut == cut_below(full@, full@.len() - 2),
        cut <= full@.len(),
{
    let len = full.unicode_len();
    let mut j: usize = len - 2;
    loop
        invariant
            len == full@.len(),
            len >= 2,
            j <= len - 2,
            cut_below(full@, len - 2) == cut_below(full@, j as int),
        decreases j,
    {
        let c1 = full.get_char(j);
        let c2 = full.get_char(j + 1);
        if c1 == ':' && c2 == ':' {
            return j + 2;
        }
        if j == 0 {
            proof {
                assert(cut_below(full@, -1) == 0);
                assert(cut_below(full@, 0) == 0);
            }
            return 0;
        }
        j = j - 1;
    }
}

/// Strip any namespace qualification from a kind name: return the part after
/// the last `::`, or the whole name when it holds none.
pub fn simple_name(full: &str) -> (r: String)
    ensures
        r@ == spec_simple_name(full@),
{
    let len = full.unicode_len();
    if len < 2 {
        let r = full.to_owned();
        proof {
            assert(spec_simple_name(full@) =~= full@);
        }
        r
    } else {
        let cut = find_cut(full);
        let sub = full.substring_char(cut, len);
        sub.to_owned()
    }
}

/// What rendering an identifier returns: the simple kind name, `#`, then the
/// base-62 encoding of the value's little-endian bytes.
pub open spec fn spec_display(name: Seq<char>, value: IdValue) -> Seq<char> {
    spec_simple_name(name) + seq!['#'] + spec_encode(crate::codec::spec_le_bytes(value))
}

/// Rendering is a pure function of the raw value and the tag's name: any two
/// renderings of the same identifier under the same name are equal.
pub proof fn lemma_display_stable(
    name: Seq<char>,
    value: IdValue,
    r1: Seq<char>,
    r2: Seq<char>,
)
    requires
        r1 == spec_display(name, value),
        r2 == spec_display(name, value),
    ensures
        r1 == r2,
{
}

impl<T> Id<T> {
    /// Render as `"<SimpleKindName>#<encoded>"`, with `kind_name` supplying
    /// the tag's name: namespace qualification is stripped from it, and the
    /// value's little-endian bytes go through the base-62 codec.
    pub fn display_with_name(&self, kind_name: &str) -> (r: String)
        ensures
            r@ == spec_display(kind_name@, self.value),
    {
        let mut s = simple_name(kind_name);
        crate::codec::push_char(&mut s, '#');
        let bytes = crate::codec::le_bytes_of(self.value);
        let code = crate::codec::encode(&bytes);
        s.append(code.as_str());
        proof {
            assert(spec_simple_name(kind_name@).push('#') + code@ =~= spec_display(
                kind_name@,
                self.value,
            ));
        }
        s
    }
}

/// Relies on `rand::random`: a uniform draw of a value of `T`.
pub assume_specification<T>[ rand::random::<T> ]() -> (r: T)
    where
        rand::distributions::Standard: rand::distributions::Distribution<T>,
;

/// Draw an identifier for the kind `T` from the process-wide random source;
/// never fails. Not guaranteed unique: the value is a single uniform draw
/// from the 64-bit space, so birthday-bound collisions are possible.
pub fn rand_id<T>() -> Id<T> {
    Id::new(rand::random())
}

} // verus!
