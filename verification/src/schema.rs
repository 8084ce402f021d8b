//! The schema: an ordered list of recognized field names. Its insertion
//! order is the output column order; the position of a name is stable for
//! the lifetime of a conversion run.

use vstd::prelude::*;

use crate::bytes::bytes_eq;
use crate::bytes::copy_bytes;
use crate::names::FieldKind;
use crate::names::kind_of;
use crate::names::kind_of_name;
use crate::names::name_event;
use crate::names::name_site;
use crate::names::name_white;
use crate::names::name_black;
use crate::names::name_result;
use crate::names::name_utc_date;
use crate::names::name_utc_time;
use crate::names::name_white_elo;
use crate::names::name_black_elo;
use crate::names::name_white_rating_diff;
use crate::names::name_black_rating_diff;
use crate::names::name_white_title;
use crate::names::name_black_title;
use crate::names::name_eco;
use crate::names::name_opening;
use crate::names::name_time_control;
use crate::names::name_termination;
use crate::names::name_fen;
use crate::names::n_event;
use crate::names::n_site;
use crate::names::n_white;
use crate::names::n_black;
use crate::names::n_result;
use crate::names::n_utc_date;
use crate::names::n_utc_time;
use crate::names::n_white_elo;
use crate::names::n_black_elo;
use crate::names::n_white_rating_diff;
use crate::names::n_black_rating_diff;
use crate::names::n_white_title;
use crate::names::n_black_title;
use crate::names::n_eco;
use crate::names::n_opening;
use crate::names::n_time_control;
use crate::names::n_termination;
use crate::names::n_fen;

verus! {

/// The built-in field list: the standard one, or, for variant games, the
/// same list with the opening classification replaced by the starting
/// position.
pub open spec fn default_names(variant: bool) -> Seq<Seq<u8>> {
    seq![
        n_event(),
        n_site(),
        n_white(),
        n_black(),
        n_result(),
        n_utc_date(),
        n_utc_time(),
        n_white_elo(),
        n_black_elo(),
        n_white_rating_diff(),
        n_black_rating_diff(),
        n_white_title(),
        n_black_title(),
        n_eco(),
        if variant {
            n_fen()
        } else {
            n_opening()
        },
        n_time_control(),
        n_termination(),
    ]
}

/// Every name a caller-supplied schema may use.
pub open spec fn recognized_names() -> Seq<Seq<u8>> {
    default_names(false).push(n_fen())
}

/// The position of the first entry of `tags` equal to `key`, if any.
pub open spec fn spec_index(tags: Seq<Seq<u8>>, key: Seq<u8>) -> Option<int>
    decreases tags.len(),
{
    if tags.len() == 0 {
        None
    } else if tags[0] == key {
        Some(0)
    } else {
        match spec_index(tags.subrange(1, tags.len() as int), key) {
            Some(j) => Some(j + 1),
            None => None,
        }
    }
}

/// A found position lies in range, names its key, and is the first match.
pub proof fn lemma_spec_index_found(tags: Seq<Seq<u8>>, key: Seq<u8>)
    ensures
        match spec_index(tags, key) {
            Some(i) => 0 <= i < tags.len() && tags[i] == key && (forall|j: int|
                0 <= j < i ==> tags[j] != key),
            None => forall|j: int| 0 <= j < tags.len() ==> tags[j] != key,
        },
    decreases tags.len(),
{
    if tags.len() == 0 {
    } else if tags[0] == key {
        assert(spec_index(tags, key) == Some(0int));
    } else {
        let rest = tags.subrange(1, tags.len() as int);
        lemma_spec_index_found(rest, key);
        match spec_index(rest, key) {
            Some(j) => {
                assert(tags[j + 1] == rest[j]);
                assert forall|j2: int| 0 <= j2 < j + 1 implies tags[j2] != key by {
                    if j2 > 0 {
                        assert(tags[j2] == rest[j2 - 1]);
                    }
                }
            },
            None => {
                assert forall|j2: int| 0 <= j2 < tags.len() implies tags[j2] != key by {
                    if j2 > 0 {
                        assert(tags[j2] == rest[j2 - 1]);
                    }
                }
            },
        }
    }
}

proof fn lemma_spec_index_skip(tags: Seq<Seq<u8>>, key: Seq<u8>, i: int)
    requires
        0 <= i <= tags.len(),
        forall|j: int| 0 <= j < i ==> tags[j] != key,
    ensures
        spec_index(tags, key) == match spec_index(
            tags.subrange(i, tags.len() as int),
            key,
        ) {
            Some(j) => Some(i + j),
            None => None::<int>,
        },
    decreases i,
{
    if i == 0 {
        assert(tags.subrange(0, tags.len() as int) =~= tags);
    } else {
        assert(tags[0] != key);
        let rest = tags.subrange(1, tags.len() as int);
        assert forall|j: int| 0 <= j < i - 1 implies rest[j] != key by {
            assert(rest[j] == tags[j + 1]);
        }
        lemma_spec_index_skip(rest, key, i - 1);
        assert(rest.subrange(i - 1, rest.len() as int) =~= tags.subrange(i, tags.len() as int));
    }
}

/// A schema a caller may supply: non-empty, every name recognized, no name
/// twice.
pub open spec fn valid_schema(names: Seq<Seq<u8>>) -> bool {
    &&& names.len() > 0
    &&& forall|i: int| 0 <= i < names.len() ==> recognized_names().contains(#[trigger] names[i])
    &&& forall|i: int, j: int| 0 <= i < j < names.len() ==> names[i] != names[j]
}

/// Why a caller-supplied schema was rejected.
#[derive(Clone, Copy, PartialEq, Eq, Structural, Debug)]
pub enum SchemaError {
    /// The supplied list was empty.
    EmptySchema,
    /// A supplied name is not among the recognized field names.
    UnrecognizedName,
    /// A supplied name appears twice.
    DuplicateName,
}

/// The ordered, immutable field schema.
#[derive(Clone)]
pub struct Tags {
    pub names: Vec<Vec<u8>>,
    pub kinds: Vec<FieldKind>,
}

impl View for Tags {
    type V = Seq<Seq<u8>>;

    open spec fn view(&self) -> Seq<Seq<u8>> {
        Seq::new(self.names@.len(), |i: int| self.names@[i]@)
    }
}

impl Tags {
    /// A well-formed schema: non-empty, with the kind of each position fixed
    /// by its name.
    pub open spec fn wf(self) -> bool {
        &&& self@.len() > 0
        &&& self.kinds@.len() == self@.len()
        &&& forall|i: int| 0 <= i < self@.len() ==> self.kinds@[i] == kind_of(self@[i])
    }

    /// How many fields the schema has.
    pub fn len(&self) -> (n: usize)
        ensures
            n == self@.len(),
    {
        self.names.len()
    }

    /// The position of the last field.
    pub fn last_index(&self) -> (n: usize)
        requires
            self.wf(),
        ensures
            n == self@.len() - 1,
    {
        self.names.len() - 1
    }

    /// The name at a position.
    pub fn index(&self, i: usize) -> (name: &Vec<u8>)
        requires
            i < self@.len(),
        ensures
            name@ == self@[i as int],
    {
        &self.names[i]
    }

    /// The kind of the field at a position.
    pub fn kind(&self, i: usize) -> (k: FieldKind)
        requires
            self.wf(),
            i < self@.len(),
        ensures
            k == kind_of(self@[i as int]),
    {
        self.kinds[i]
    }

    /// The position of a field name, or `None` when the name is not in the
    /// schema.
    pub fn get_index(&self, key: &[u8]) -> (r: Option<usize>)
        ensures
            match r {
                Some(i) => spec_index(self@, key@) == Some(i as int),
                None => spec_index(self@, key@) is None,
            },
    {
        let n = self.names.len();
        let mut i: usize = 0;
        while i < n
            invariant
                n == self.names@.len(),
                self@.len() == n,
                i <= n,
                forall|j: int| 0 <= j < i ==> self@[j] != key@,
            decreases n - i,
        {
            if bytes_eq(key, &self.names[i]) {
                proof {
                    lemma_spec_index_skip(self@, key@, i as int);
                    let rest = self@.subrange(i as int, n as int);
                    assert(rest[0] == self@[i as int]);
                }
                return Some(i);
            }
            i = i + 1;
        }
        proof {
            lemma_spec_index_skip(self@, key@, n as int);
            assert(self@.subrange(n as int, n as int) =~= Seq::<Seq<u8>>::empty());
        }
        None
    }

    /// Build a schema from a caller-supplied name list. Fails, before any
    /// record is processed, when the list is empty, holds an unrecognized
    /// name, or holds a name twice.
    pub fn from(names: &Vec<Vec<u8>>) -> (r: Result<Tags, SchemaError>)
        ensures
            r is Ok <==> valid_schema(views_of(names@)),
            r matches Ok(t) ==> t@ == views_of(names@) && t.wf(),
            r == Err::<Tags, SchemaError>(SchemaError::EmptySchema) <==> names@.len() == 0,
            r == Err::<Tags, SchemaError>(SchemaError::UnrecognizedName) <==> names@.len() > 0
                && exists|i: int|
                0 <= i < names@.len() && !recognized_names().contains(#[trigger] names@[i]@),
            r == Err::<Tags, SchemaError>(SchemaError::DuplicateName) <==> names@.len() > 0 && (
            forall|i: int|
                0 <= i < names@.len() ==> recognized_names().contains(#[trigger] names@[i]@)) && (
            exists|i: int, j: int| 0 <= i < j < names@.len() && names@[i]@ == names@[j]@),
    {
        let n = names.len();
        if n == 0 {
            return Err(SchemaError::EmptySchema);
        }
        let allowed = recognized_list();
        let mut i: usize = 0;
        while i < n
            invariant
                n == names@.len(),
                i <= n,
                cells_ok(allowed),
                forall|j: int|
                    0 <= j < i ==> recognized_names().contains(#[trigger] names@[j]@),
            decreases n - i,
        {
            if !contains_name(&allowed, &names[i]) {
                proof {
                    assert(!recognized_names().contains(names@[i as int]@));
                    assert(views_of(names@)[i as int] == names@[i as int]@);
                    assert(!valid_schema(views_of(names@)));
                }
                return Err(SchemaError::UnrecognizedName);
            }
            i = i + 1;
        }
        let mut a: usize = 0;
        while a < n
            invariant
                n == names@.len(),
                a <= n,
                forall|j: int|
                    0 <= j < n ==> recognized_names().contains(#[trigger] names@[j]@),
                forall|i2: int, j2: int|
                    0 <= i2 < j2 < n && i2 < a ==> names@[i2]@ != names@[j2]@,
            decreases n - a,
        {
            let mut b: usize = a + 1;
            while b < n
                invariant
                    n == names@.len(),
                    a < n,
                    a < b <= n,
                    forall|j: int|
                        0 <= j < n ==> recognized_names().contains(#[trigger] names@[j]@),
                    forall|i2: int, j2: int|
                        0 <= i2 < j2 < n && i2 < a ==> names@[i2]@ != names@[j2]@,
                    forall|j2: int| a < j2 < b ==> names@[a as int]@ != names@[j2]@,
                decreases n - b,
            {
                if bytes_eq(names[b].as_slice(), &names[a]) {
                    proof {
                        assert(names@[a as int]@ == names@[b as int]@);
                        assert(views_of(names@)[a as int] == views_of(names@)[b as int]);
                        assert(!valid_schema(views_of(names@)));
                    }
                    return Err(SchemaError::DuplicateName);
                }
                b = b + 1;
            }
            a = a + 1;
        }
        let mut owned: Vec<Vec<u8>> = Vec::new();
        let mut kinds: Vec<FieldKind> = Vec::new();
        let mut k: usize = 0;
        while k < n
            invariant
                n == names@.len(),
                k <= n,
                owned@.len() == k,
                kinds@.len() == k,
                forall|j: int|
                    0 <= j < n ==> recognized_names().contains(#[trigger] names@[j]@),
                forall|i2: int, j2: int|
                    0 <= i2 < j2 < n ==> names@[i2]@ != names@[j2]@,
                forall|j: int| 0 <= j < k ==> owned@[j]@ == names@[j]@,
                forall|j: int| 0 <= j < k ==> kinds@[j] == kind_of(names@[j]@),
            decreases n - k,
        {
            owned.push(copy_bytes(names[k].as_slice()));
            kinds.push(kind_of_name(names[k].as_slice()));
            k = k + 1;
        }
        let t = Tags { names: owned, kinds };
        proof {
            assert(t@ =~~= views_of(names@));
            assert forall|j: int| 0 <= j < n implies recognized_names().contains(
                #[trigger] views_of(names@)[j],
            ) by {
                assert(views_of(names@)[j] == names@[j]@);
            }
            assert(valid_schema(views_of(names@)));
        }
        Ok(t)
    }

    /// The built-in default schema; `variant` selects the variant-game list.
    pub fn default_for(variant: bool) -> (t: Tags)
        ensures
            t@ == default_names(variant),
            t.wf(),
    {
        let mut names: Vec<Vec<u8>> = Vec::new();
        names.push(name_event());
        names.push(name_site());
        names.push(name_white());
        names.push(name_black());
        names.push(name_result());
        names.push(name_utc_date());
        names.push(name_utc_time());
        names.push(name_white_elo());
        names.push(name_black_elo());
        names.push(name_white_rating_diff());
        names.push(name_black_rating_diff());
        names.push(name_white_title());
        names.push(name_black_title());
        names.push(name_eco());
        if variant {
            names.push(name_fen());
        } else {
            names.push(name_opening());
        }
        names.push(name_time_control());
        names.push(name_termination());
        let mut kinds: Vec<FieldKind> = Vec::new();
        let mut k: usize = 0;
        while k < names.len()
            invariant
                kinds@.len() == k,
                k <= names@.len(),
                forall|j: int| 0 <= j < k ==> kinds@[j] == kind_of(names@[j]@),
            decreases names@.len() - k,
        {
            kinds.push(kind_of_name(names[k].as_slice()));
            k = k + 1;
        }
        let t = Tags { names, kinds };
        proof {
            assert(t@ =~~= default_names(variant));
        }
        t
    }
}

impl Default for Tags {
    /// The standard built-in schema.
    fn default() -> (t: Tags)
        ensures
            t@ == default_names(false),
            t.wf(),
    {
        Tags::default_for(false)
    }
}

/// The views of a sequence of byte vectors.
pub open spec fn views_of(names: Seq<Vec<u8>>) -> Seq<Seq<u8>> {
    Seq::new(names.len(), |i: int| names[i]@)
}

/// The view relation a recognized-name list satisfies.
pub open spec fn cells_ok(list: Vec<Vec<u8>>) -> bool {
    views_of(list@) == recognized_names()
}

/// The recognized names as an owned list.
fn recognized_list() -> (r: Vec<Vec<u8>>)
    ensures
        cells_ok(r),
{
    let mut r: Vec<Vec<u8>> = Vec::new();
    r.push(name_event());
    r.push(name_site());
    r.push(name_white());
    r.push(name_black());
    r.push(name_result());
    r.push(name_utc_date());
    r.push(name_utc_time());
    r.push(name_white_elo());
    r.push(name_black_elo());
    r.push(name_white_rating_diff());
    r.push(name_black_rating_diff());
    r.push(name_white_title());
    r.push(name_black_title());
    r.push(name_eco());
    r.push(name_opening());
    r.push(name_time_control());
    r.push(name_termination());
    r.push(name_fen());
    proof {
        assert(views_of(r@) =~~= recognized_names());
    }
    r
}

/// Whether `key` is among the views of `list`.
fn contains_name(list: &Vec<Vec<u8>>, key: &Vec<u8>) -> (r: bool)
    ensures
        r <==> views_of(list@).contains(key@),
{
    let n = list.len();
    let mut i: usize = 0;
    while i < n
        invariant
            n == list@.len(),
            i <= n,
            forall|j: int| 0 <= j < i ==> views_of(list@)[j] != key@,
        decreases n - i,
    {
        if bytes_eq(key.as_slice(), &list[i]) {
            assert(views_of(list@)[i as int] == key@);
            return true;
        }
        i = i + 1;
    }
    assert(forall|j: int| 0 <= j < views_of(list@).len() ==> views_of(list@)[j] != key@);
    false
}

} // verus!
