//! The catalog of builtin signatures.

use crate::text::same;
use vstd::prelude::*;

verus! {

/// One overload of a library method.
#[derive(Debug)]
pub struct Overload {
    /// The library object.
    pub object: String,
    /// The method.
    pub method: String,
    /// The number of parameters.
    pub params: usize,
    /// The return type as the catalog spells it.
    pub returns: String,
}

/// The signatures of the library objects and of the methods of project objects.
#[derive(Debug)]
pub struct Intrinsics {
    /// The overloads of library methods.
    pub library: Vec<Overload>,
    /// The methods of project objects with their parameter counts.
    pub object_methods: Vec<(String, usize)>,
}

/// The parameter counts of a library method.
pub open spec fn library_counts(s: Seq<Overload>, object: Seq<char>, method: Seq<char>) -> Seq<usize>
    decreases s.len(),
{
    if s.len() == 0 {
        Seq::empty()
    } else {
        let rest = library_counts(s.drop_last(), object, method);
        if s.last().object@ == object && s.last().method@ == method {
            rest.push(s.last().params)
        } else {
            rest
        }
    }
}

/// The parameter counts of a method of project objects.
pub open spec fn object_counts(s: Seq<(String, usize)>, method: Seq<char>) -> Seq<usize>
    decreases s.len(),
{
    if s.len() == 0 {
        Seq::empty()
    } else {
        let rest = object_counts(s.drop_last(), method);
        if s.last().0@ == method {
            rest.push(s.last().1)
        } else {
            rest
        }
    }
}

/// The return type of the first overload of a library method.
pub open spec fn first_return(s: Seq<Overload>, object: Seq<char>, method: Seq<char>) -> Option<Seq<char>>
    decreases s.len(),
{
    if s.len() == 0 {
        None
    } else if s[0].object@ == object && s[0].method@ == method {
        Some(s[0].returns@)
    } else {
        first_return(s.drop_first(), object, method)
    }
}

/// Whether a name is that of a library object.
pub open spec fn is_library_object(s: Seq<Overload>, name: Seq<char>) -> bool {
    exists|i: int| 0 <= i < s.len() && (#[trigger] s[i]).object@ == name
}

/// A method has a first overload exactly where it has any.
proof fn lemma_first_return(s: Seq<Overload>, object: Seq<char>, method: Seq<char>)
    ensures
        first_return(s, object, method) is Some <==> library_counts(s, object, method).len() > 0,
    decreases s.len(),
{
    if s.len() > 0 {
        lemma_first_return(s.drop_first(), object, method);
        lemma_counts_split(s, object, method);
    }
}

proof fn lemma_counts_split(s: Seq<Overload>, object: Seq<char>, method: Seq<char>)
    requires
        s.len() > 0,
    ensures
        library_counts(s, object, method) == (if s[0].object@ == object && s[0].method@ == method {
            seq![s[0].params]
        } else {
            Seq::<usize>::empty()
        }) + library_counts(s.drop_first(), object, method),
    decreases s.len(),
{
    if s.len() == 1 {
        assert(s.drop_last() =~= Seq::<Overload>::empty());
        assert(s.drop_first() =~= Seq::<Overload>::empty());
        assert(library_counts(s, object, method) =~= (if s[0].object@ == object && s[0].method@
            == method {
            seq![s[0].params]
        } else {
            Seq::<usize>::empty()
        }) + library_counts(s.drop_first(), object, method));
    } else {
        lemma_counts_split(s.drop_last(), object, method);
        assert(s.drop_last().drop_first() =~= s.drop_first().drop_last());
        assert(s.drop_last()[0] == s[0]);
        assert(s.drop_first().last() == s.last());
        assert(library_counts(s, object, method) =~= (if s[0].object@ == object && s[0].method@
            == method {
            seq![s[0].params]
        } else {
            Seq::<usize>::empty()
        }) + library_counts(s.drop_first(), object, method));
    }
}

impl Intrinsics {
    /// The parameter counts of a library method.
    pub open spec fn counts(self, object: Seq<char>, method: Seq<char>) -> Seq<usize> {
        library_counts(self.library@, object, method)
    }

    /// The parameter counts of a library method.
    pub fn library_overloads(&self, object: &str, method: &str) -> (r: Vec<usize>)
        ensures
            r@ == self.counts(object@, method@),
    {
        let mut r: Vec<usize> = Vec::new();
        let mut i: usize = 0;
        let ghost all = self.library@;
        while i < self.library.len()
            invariant
                i <= all.len(),
                all == self.library@,
                r@ == library_counts(all.take(i as int), object@, method@),
            decreases all.len() - i,
        {
            let e = &self.library[i];
            assert(all.take(i + 1).last() == all[i as int]);
            assert(all.take(i + 1).drop_last() =~= all.take(i as int));
            if same(e.object.as_str(), object) && same(e.method.as_str(), method) {
                r.push(e.params);
            }
            i = i + 1;
        }
        assert(all.take(i as int) =~= all);
        r
    }

    /// The parameter counts of a method of project objects.
    pub fn object_method(&self, method: &str) -> (r: Vec<usize>)
        ensures
            r@ == object_counts(self.object_methods@, method@),
    {
        let mut r: Vec<usize> = Vec::new();
        let mut i: usize = 0;
        let ghost all = self.object_methods@;
        while i < self.object_methods.len()
            invariant
                i <= all.len(),
                all == self.object_methods@,
                r@ == object_counts(all.take(i as int), method@),
            decreases all.len() - i,
        {
            let e = &self.object_methods[i];
            assert(all.take(i + 1).last() == all[i as int]);
            assert(all.take(i + 1).drop_last() =~= all.take(i as int));
            if same(e.0.as_str(), method) {
                r.push(e.1);
            }
            i = i + 1;
        }
        assert(all.take(i as int) =~= all);
        r
    }

    /// The return type of a library method.
    pub open spec fn result_type(self, object: Seq<char>, method: Seq<char>) -> Option<Seq<char>> {
        first_return(self.library@, object, method)
    }

    /// The return type of a library method.
    pub fn library_return_type(&self, object: &str, method: &str) -> (r: Option<&str>)
        ensures
            crate::project::str_of(r) == self.result_type(object@, method@),
            r is Some <==> self.counts(object@, method@).len() > 0,
    {
        let mut i: usize = 0;
        let ghost all = self.library@;
        assert(all.skip(0) =~= all);
        proof {
            lemma_first_return(all, object@, method@);
        }
        while i < self.library.len()
            invariant
                i <= all.len(),
                all == self.library@,
                first_return(all, object@, method@) is Some <==> library_counts(
                    all,
                    object@,
                    method@,
                ).len() > 0,
                first_return(all, object@, method@) == first_return(
                    all.skip(i as int),
                    object@,
                    method@,
                ),
            decreases all.len() - i,
        {
            let e = &self.library[i];
            assert(all.skip(i as int)[0] == all[i as int]);
            assert(all.skip(i as int).drop_first() =~= all.skip(i + 1));
            if same(e.object.as_str(), object) && same(e.method.as_str(), method) {
                return Some(e.returns.as_str());
            }
            i = i + 1;
        }
        None
    }

    /// Whether a name is that of a library object.
    pub fn has_library_object(&self, name: &str) -> (r: bool)
        ensures
            r == is_library_object(self.library@, name@),
    {
        let mut i: usize = 0;
        while i < self.library.len()
            invariant
                i <= self.library.len(),
                forall|j: int| 0 <= j < i ==> (#[trigger] self.library@[j]).object@ != name@,
            decreases self.library.len() - i,
        {
            if same(self.library[i].object.as_str(), name) {
                assert(self.library@[i as int].object@ == name@);
                return true;
            }
            i = i + 1;
        }
        false
    }
}

} // verus!
