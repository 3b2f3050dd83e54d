use vstd::prelude::*;

use crate::lifetime::Location;
use crate::processing;
use crate::text::{cat2, cat3, clone_opt, clone_strings};

verus! {

/// A field of the generated container struct: `ident: ty`.
#[derive(Debug, PartialEq, Eq)]
pub struct Field {
    pub ident: String,
    pub ty: String,
}

/// A field initialiser of a generated constructor: `ident: init`.
#[derive(Debug, PartialEq, Eq)]
pub struct FieldValue {
    pub ident: String,
    pub init: String,
}

/// The generated container: a struct holding the managed dependencies and
/// an `impl` block with its constructors and one accessor per dependency.
#[derive(Debug, PartialEq, Eq)]
pub struct Container {
    pub attrs: Vec<String>,
    pub self_ty: String,
    pub lifetime_generic: Option<String>,
    pub fields: Option<Vec<Field>>,
    pub constructors: Vec<FieldValue>,
    pub scope_constructors: Vec<FieldValue>,
    pub dependencies: Vec<Dependency>,
}

/// One dependency of the generated container: a `create_` function that
/// holds the registered body, and a public accessor of the registered name.
#[derive(Debug, PartialEq, Eq)]
pub struct Dependency {
    pub attrs: Vec<String>,
    pub block: String,
    pub constness: bool,
    pub asyncness: bool,
    pub unsafety: bool,
    pub abi: Option<String>,
    pub ident: String,
    pub ident_span: Location,
    pub generics: String,
    pub inputs: Vec<String>,
    pub variadic: Option<String>,
    pub ty: String,
    pub create_asyncness: bool,
    pub create_ident: String,
    pub create_ident_span: Location,
    pub is_managed: bool,
    pub create_ty: String,
    pub dependencies: Vec<ChildDependency>,
}

/// A dependency that an accessor obtains before it calls its `create_`
/// function: by name, awaited where it is async, passed by reference where
/// the parameter is a reference.
#[derive(Debug, PartialEq, Eq)]
pub struct ChildDependency {
    pub ident: String,
    pub ident_span: Location,
    pub awaitness: bool,
    pub is_ref: bool,
}

// ---------------------------------------------------------------------
// What each conversion produces.

/// The dependencies that the container stores: the scoped and singleton ones.
pub open spec fn managed_dependencies(deps: Seq<processing::Dependency>) -> Seq<
    processing::Dependency,
> {
    deps.filter(|d: processing::Dependency| d.lifetime.managed())
}

/// The type a managed dependency is stored as, inside its cell.
pub open spec fn stored_type(d: processing::Dependency) -> Seq<char> {
    if d.is_boxed {
        "std::boxed::Box<"@ + d.ty@ + " + 'a>"@
    } else {
        d.ty@
    }
}

/// The type of the struct field that holds a managed dependency: a shared
/// cell for a singleton, a cell of its own for a scoped one.
pub open spec fn field_type(d: processing::Dependency) -> Seq<char> {
    if d.lifetime is Singleton {
        "std::rc::Rc<std::cell::OnceCell<"@ + stored_type(d) + ">>"@
    } else {
        "std::cell::OnceCell<"@ + stored_type(d) + ">"@
    }
}

/// How `new_scope` initialises the field of a managed dependency: a
/// singleton's cell is shared with the parent, a scoped one starts empty.
pub open spec fn scope_init(d: processing::Dependency) -> Seq<char> {
    if d.lifetime is Singleton {
        "self."@ + d.sig.ident@ + ".clone()"@
    } else {
        "Default::default()"@
    }
}

/// The type the `create_` function returns.
pub open spec fn created_type(d: processing::Dependency) -> Seq<char> {
    if d.is_boxed {
        "std::boxed::Box<"@ + d.ty@ + " + '_>"@
    } else {
        d.ty@
    }
}

/// The type the accessor returns: a reference to the stored value for a
/// managed dependency, the created value otherwise.
pub open spec fn accessor_type(d: processing::Dependency) -> Seq<char> {
    if d.lifetime.managed() {
        "&"@ + created_type(d)
    } else {
        created_type(d)
    }
}

/// `r` is the child `c` of a dependency in `deps`.
pub open spec fn child_from(
    c: processing::ChildDependency,
    deps: Seq<processing::Dependency>,
    r: ChildDependency,
) -> bool {
    &&& r.ident == deps[c.inner as int].sig.ident
    &&& r.ident_span == deps[c.inner as int].sig.ident_span
    &&& r.awaitness == deps[c.inner as int].is_async
    &&& r.is_ref == c.is_ref
}

/// Every child of `d` refers to a dependency in `deps`.
pub open spec fn children_in(d: processing::Dependency, deps: Seq<processing::Dependency>) -> bool {
    forall|j: int|
        0 <= j < d.dependencies@.len() ==> #[trigger] d.dependencies@[j].inner < deps.len()
}

/// `r` is the generated form of the processed dependency `d` of `deps`.
pub open spec fn dependency_from(
    d: processing::Dependency,
    deps: Seq<processing::Dependency>,
    r: Dependency,
) -> bool {
    &&& r.attrs@ == d.attrs@
    &&& r.block == d.block
    &&& r.constness == d.sig.constness
    &&& r.asyncness == d.is_async
    &&& r.unsafety == d.sig.unsafety
    &&& r.abi == d.sig.abi
    &&& r.ident == d.sig.ident
    &&& r.generics == d.sig.generics
    &&& r.inputs@ == d.sig.inputs@
    &&& r.variadic == d.sig.variadic
    &&& r.create_asyncness == d.sig.asyncness
    &&& r.create_ident@ == "create_"@ + d.sig.ident@
    &&& r.ident_span == d.sig.ident_span
    &&& r.create_ident_span == d.sig.ident_span
    &&& r.create_ty@ == created_type(d)
    &&& r.ty@ == accessor_type(d)
    &&& r.is_managed == d.lifetime.managed()
    &&& r.dependencies@.len() == d.dependencies@.len()
    &&& forall|j: int|
        0 <= j < r.dependencies@.len() ==> child_from(
            d.dependencies@[j],
            deps,
            #[trigger] r.dependencies@[j],
        )
}

/// Taking one more element of `s` adds it to the managed ones exactly when
/// it is managed.
proof fn lemma_managed_take_step(s: Seq<processing::Dependency>, i: int)
    requires
        0 <= i < s.len(),
    ensures
        managed_dependencies(s.take(i + 1)) == if s[i].lifetime.managed() {
            managed_dependencies(s.take(i)).push(s[i])
        } else {
            managed_dependencies(s.take(i))
        },
{
    reveal(Seq::filter);
    assert(s.take(i + 1).drop_last() =~= s.take(i));
    assert(s.take(i + 1).last() == s[i]);
}

proof fn lemma_managed_all(s: Seq<processing::Dependency>)
    ensures
        managed_dependencies(s.take(s.len() as int)) == managed_dependencies(s),
{
    assert(s.take(s.len() as int) =~= s);
}

// ---------------------------------------------------------------------
// The conversions.

impl ChildDependency {
    /// A child of a processed dependency in its generated form.
    pub fn from_processing(
        child: &processing::ChildDependency,
        deps: &Vec<processing::Dependency>,
    ) -> (r: ChildDependency)
        requires
            child.inner < deps@.len(),
        ensures
            child_from(*child, deps@, r),
    {
        let inner = &deps[child.inner];
        ChildDependency {
            ident: inner.sig.ident.clone(),
            ident_span: inner.sig.ident_span,
            awaitness: inner.is_async,
            is_ref: child.is_ref,
        }
    }
}

impl Dependency {
    /// A processed dependency of `deps` in its generated form.
    pub fn from_processing(
        d: &processing::Dependency,
        deps: &Vec<processing::Dependency>,
    ) -> (r: Dependency)
        requires
            children_in(*d, deps@),
        ensures
            dependency_from(*d, deps@, r),
    {
        let create_ty = if d.is_boxed {
            cat3("std::boxed::Box<", d.ty.as_str(), " + '_>")
        } else {
            d.ty.clone()
        };
        let is_managed = d.lifetime.is_managed();
        let ty = if is_managed {
            cat2("&", create_ty.as_str())
        } else {
            create_ty.clone()
        };
        let mut children: Vec<ChildDependency> = Vec::new();
        let n = d.dependencies.len();
        for j in 0..n
            invariant
                n == d.dependencies@.len(),
                children_in(*d, deps@),
                children@.len() == j,
                forall|k: int|
                    0 <= k < j ==> child_from(
                        d.dependencies@[k],
                        deps@,
                        #[trigger] children@[k],
                    ),
        {
            children.push(ChildDependency::from_processing(&d.dependencies[j], deps));
        }
        Dependency {
            attrs: clone_strings(&d.attrs),
            block: d.block.clone(),
            constness: d.sig.constness,
            asyncness: d.is_async,
            unsafety: d.sig.unsafety,
            abi: clone_opt(&d.sig.abi),
            ident: d.sig.ident.clone(),
            ident_span: d.sig.ident_span,
            generics: d.sig.generics.clone(),
            inputs: clone_strings(&d.sig.inputs),
            variadic: clone_opt(&d.sig.variadic),
            ty,
            create_asyncness: d.sig.asyncness,
            create_ident: cat2("create_", d.sig.ident.as_str()),
            create_ident_span: d.sig.ident_span,
            is_managed,
            create_ty,
            dependencies: children,
        }
    }
}


/// `fields` declares, in order, one field per managed dependency in `m`.
pub open spec fn fields_for(fields: Seq<Field>, m: Seq<processing::Dependency>) -> bool {
    &&& fields.len() == m.len()
    &&& forall|i: int|
        0 <= i < fields.len() ==> (#[trigger] fields[i]).ident == m[i].sig.ident && fields[i].ty@
            == field_type(m[i])
}

/// `values` initialises, in order, one field per managed dependency in `m`,
/// each by `init`.
pub open spec fn values_for(
    values: Seq<FieldValue>,
    m: Seq<processing::Dependency>,
    init: spec_fn(processing::Dependency) -> Seq<char>,
) -> bool {
    &&& values.len() == m.len()
    &&& forall|i: int|
        0 <= i < values.len() ==> (#[trigger] values[i]).ident == m[i].sig.ident && values[i].init@
            == init(m[i])
}

/// How `new` initialises every managed field: with an empty cell.
pub open spec fn default_init(d: processing::Dependency) -> Seq<char> {
    "Default::default()"@
}

/// Some managed dependency is boxed, so the container needs a lifetime.
pub open spec fn needs_lifetime(deps: Seq<processing::Dependency>) -> bool {
    exists|i: int| 0 <= i < deps.len() && #[trigger] deps[i].is_boxed && deps[i].lifetime.managed()
}

/// Every dependency in `m` is managed: scoped or singleton.
pub open spec fn all_managed(m: Seq<processing::Dependency>) -> bool {
    forall|i: int| 0 <= i < m.len() ==> (#[trigger] m[i]).lifetime.managed()
}

/// The fields of the generated struct for the managed dependencies `managed`:
/// none at all where there are none, else one per dependency, in order.
///
/// The fields are spliced into the struct body without separators, so the
/// body only parses with at most one field; more is outside its domain.
pub fn get_struct_fields(managed: &Vec<processing::Dependency>) -> (r: Option<Vec<Field>>)
    requires
        all_managed(managed@),
        managed@.len() <= 1,
    ensures
        r is None <==> managed@.len() == 0,
        r matches Some(fields) ==> fields_for(fields@, managed@),
{
    if managed.len() == 0 {
        return None;
    }
    let mut fields: Vec<Field> = Vec::new();
    let n = managed.len();
    for i in 0..n
        invariant
            n == managed@.len(),
            all_managed(managed@),
            fields_for(fields@, managed@.take(i as int)),
    {
        let d = &managed[i];
        let stored = if d.is_boxed {
            cat3("std::boxed::Box<", d.ty.as_str(), " + 'a>")
        } else {
            d.ty.clone()
        };
        let ty = match d.lifetime {
            crate::lifetime::Lifetime::Singleton(_) => cat3(
                "std::rc::Rc<std::cell::OnceCell<",
                stored.as_str(),
                ">>",
            ),
            _ => cat3("std::cell::OnceCell<", stored.as_str(), ">"),
        };
        fields.push(Field { ident: d.sig.ident.clone(), ty });
    }
    assert(managed@.take(n as int) =~= managed@);
    Some(fields)
}

/// The initialisers of `new`: every given dependency's field starts as an
/// empty cell.
pub fn get_struct_field_constructors(managed: &Vec<processing::Dependency>) -> (r: Vec<FieldValue>)
    ensures
        values_for(r@, managed@, |d: processing::Dependency| default_init(d)),
{
    let mut values: Vec<FieldValue> = Vec::new();
    let n = managed.len();
    for i in 0..n
        invariant
            n == managed@.len(),
            values_for(
                values@,
                managed@.take(i as int),
                |d: processing::Dependency| default_init(d),
            ),
    {
        let d = &managed[i];
        values.push(
            FieldValue { ident: d.sig.ident.clone(), init: String::from_str("Default::default()") },
        );
    }
    assert(managed@.take(n as int) =~= managed@);
    values
}

/// The initialisers of `new_scope` for the managed dependencies `managed`:
/// a singleton's cell is shared with the parent container, a scoped
/// dependency's starts empty.
pub fn get_new_scope_constructors(managed: &Vec<processing::Dependency>) -> (r: Vec<FieldValue>)
    requires
        all_managed(managed@),
    ensures
        values_for(r@, managed@, |d: processing::Dependency| scope_init(d)),
{
    let mut values: Vec<FieldValue> = Vec::new();
    let n = managed.len();
    for i in 0..n
        invariant
            n == managed@.len(),
            all_managed(managed@),
            values_for(
                values@,
                managed@.take(i as int),
                |d: processing::Dependency| scope_init(d),
            ),
    {
        let d = &managed[i];
        let init = match d.lifetime {
            crate::lifetime::Lifetime::Singleton(_) => cat3(
                "self.",
                d.sig.ident.as_str(),
                ".clone()",
            ),
            _ => String::from_str("Default::default()"),
        };
        values.push(FieldValue { ident: d.sig.ident.clone(), init });
    }
    assert(managed@.take(n as int) =~= managed@);
    values
}

/// Every dependency in the managed list is managed.
proof fn lemma_managed_are_managed(deps: Seq<processing::Dependency>)
    ensures
        all_managed(managed_dependencies(deps)),
{
    broadcast use vstd::seq_lib::group_filter_ensures;

}

/// `r` is the generated form of the processed container `c`.
pub open spec fn container_from(c: processing::Container, r: Container) -> bool {
    &&& r.attrs == c.attrs
    &&& r.self_ty == c.self_ty
    &&& (r.lifetime_generic is Some <==> needs_lifetime(c.dependencies@))
    &&& (r.lifetime_generic matches Some(g) ==> g@ == "<'a>"@)
    &&& (r.fields is None <==> managed_dependencies(c.dependencies@).len() == 0)
    &&& (r.fields matches Some(fields) ==> fields_for(fields@, managed_dependencies(c.dependencies@)))
    &&& values_for(
        r.constructors@,
        managed_dependencies(c.dependencies@),
        |d: processing::Dependency| default_init(d),
    )
    &&& values_for(
        r.scope_constructors@,
        managed_dependencies(c.dependencies@),
        |d: processing::Dependency| scope_init(d),
    )
    &&& r.dependencies@.len() == c.dependencies@.len()
    &&& forall|i: int|
        0 <= i < r.dependencies@.len() ==> dependency_from(
            c.dependencies@[i],
            c.dependencies@,
            #[trigger] r.dependencies@[i],
        )
}

impl Container {
    /// The generated form of a processed container.
    pub fn from_processing(container: processing::Container) -> (r: Container)
        requires
            container.well_formed(),
            managed_dependencies(container.dependencies@).len() <= 1,
        ensures
            container_from(container, r),
    {
        let processing::Container { attrs, self_ty, dependencies: deps } = container;
        let n = deps.len();
        let mut boxed_managed = false;
        for i in 0..n
            invariant
                n == deps@.len(),
                boxed_managed <==> exists|k: int|
                    0 <= k < i && #[trigger] deps@[k].is_boxed && deps@[k].lifetime.managed(),
        {
            if deps[i].is_boxed && deps[i].lifetime.is_managed() {
                boxed_managed = true;
            }
        }
        let lifetime_generic = if boxed_managed {
            Some(String::from_str("<'a>"))
        } else {
            None
        };
        let mut dependencies: Vec<Dependency> = Vec::new();
        for i in 0..n
            invariant
                n == deps@.len(),
                forall|a: int, b: int|
                    #![trigger deps@[a].dependencies@[b]]
                    0 <= a < deps@.len() && 0 <= b < deps@[a].dependencies@.len()
                        ==> deps@[a].dependencies@[b].inner < deps@.len(),
                dependencies@.len() == i,
                forall|k: int|
                    0 <= k < i ==> dependency_from(deps@[k], deps@, #[trigger] dependencies@[k]),
        {
            assert(children_in(deps@[i as int], deps@));
            dependencies.push(Dependency::from_processing(&deps[i], &deps));
        }
        let ghost all = deps@;
        let mut managed: Vec<processing::Dependency> = Vec::new();
        for d in it: deps.into_iter()
            invariant
                it.seq() == all,
                managed@ == managed_dependencies(all.take(it.index() as int)),
        {
            proof {
                lemma_managed_take_step(all, it.index() as int);
            }
            if d.lifetime.is_managed() {
                managed.push(d);
            }
        }
        proof {
            lemma_managed_all(all);
            lemma_managed_are_managed(all);
        }
        let fields = get_struct_fields(&managed);
        let constructors = get_struct_field_constructors(&managed);
        let scope_constructors = get_new_scope_constructors(&managed);
        Container {
            attrs,
            self_ty,
            lifetime_generic,
            fields,
            constructors,
            scope_constructors,
            dependencies,
        }
    }
}


// ---------------------------------------------------------------------
// Laws of the generated container.

/// The struct, `new` and `new_scope` agree: each declares or initialises
/// exactly the managed dependencies, in the same order and under the same
/// names; without managed dependencies there are no fields to initialise.
pub proof fn lemma_fields_and_constructors_align(c: processing::Container, r: Container)
    requires
        container_from(c, r),
    ensures
        r.constructors@.len() == r.scope_constructors@.len(),
        r.fields is None ==> r.constructors@.len() == 0,
        r.fields matches Some(fields) ==> {
            &&& fields@.len() == r.constructors@.len()
            &&& forall|i: int|
                0 <= i < fields@.len() ==> (#[trigger] fields@[i]).ident == r.constructors@[i].ident
                    && fields@[i].ident == r.scope_constructors@[i].ident
        },
{
}

/// The accessor of every managed dependency reads a field that the struct
/// declares under its name.
pub proof fn lemma_managed_accessors_have_fields(c: processing::Container, r: Container)
    requires
        container_from(c, r),
    ensures
        forall|k: int|
            0 <= k < r.dependencies@.len() && (#[trigger] r.dependencies@[k]).is_managed ==> (
            r.fields matches Some(fields) && exists|i: int|
                0 <= i < fields@.len() && (#[trigger] fields@[i]).ident == r.dependencies@[k].ident),
{
    broadcast use vstd::seq_lib::group_filter_ensures;
    let deps = c.dependencies@;
    let m = managed_dependencies(deps);
    assert forall|k: int|
        0 <= k < r.dependencies@.len() && (#[trigger] r.dependencies@[k]).is_managed implies (
    r.fields matches Some(fields) && exists|i: int|
        0 <= i < fields@.len() && (#[trigger] fields@[i]).ident == r.dependencies@[k].ident) by {
        assert(dependency_from(deps[k], deps, r.dependencies@[k]));
        assert(deps.filter(|d: processing::Dependency| d.lifetime.managed()).contains(deps[k]));
        let i = choose|i: int| 0 <= i < m.len() && m[i] == deps[k];
        assert(r.fields is Some);
        let fields = r.fields->0;
        assert(fields@[i].ident == m[i].sig.ident);
    }
}

/// Every field of the struct belongs to the accessor of a managed
/// dependency of the same name.
pub proof fn lemma_fields_have_accessors(c: processing::Container, r: Container, i: int)
    requires
        container_from(c, r),
        r.fields is Some,
        0 <= i < r.fields->0@.len(),
    ensures
        exists|k: int|
            0 <= k < r.dependencies@.len() && (#[trigger] r.dependencies@[k]).is_managed
                && r.dependencies@[k].ident == r.fields->0@[i].ident,
{
    let k = lemma_field_owner(c, r, i);
    assert(r.dependencies@[k].is_managed);
}

/// The managed dependency that field `i` belongs to.
proof fn lemma_field_owner(c: processing::Container, r: Container, i: int) -> (k: int)
    requires
        container_from(c, r),
        r.fields is Some,
        0 <= i < r.fields->0@.len(),
    ensures
        0 <= k < r.dependencies@.len(),
        r.dependencies@[k].is_managed,
        r.dependencies@[k].ident == r.fields->0@[i].ident,
{
    broadcast use vstd::seq_lib::group_filter_ensures;
    let deps = c.dependencies@;
    let m = managed_dependencies(deps);
    let fields = r.fields->0;
    assert(fields_for(fields@, m));
    assert(m.contains(m[i]));
    deps.lemma_filter_contains_rev(|d: processing::Dependency| d.lifetime.managed(), m[i]);
    let k = choose|k: int| 0 <= k < deps.len() && deps[k] == m[i];
    assert(dependency_from(deps[k], deps, r.dependencies@[k]));
    k
}

/// A managed dependency's accessor lends the stored value, so it returns a
/// reference to what the `create_` function returns; any other accessor
/// returns the created value itself.
pub proof fn lemma_accessor_type(
    d: processing::Dependency,
    deps: Seq<processing::Dependency>,
    r: Dependency,
)
    requires
        dependency_from(d, deps, r),
    ensures
        r.is_managed ==> r.ty@ == "&"@ + r.create_ty@,
        !r.is_managed ==> r.ty@ == r.create_ty@,
        r.create_ident@ == "create_"@ + r.ident@,
        r.create_ident_span == r.ident_span,
{
}


/// A singleton is stored behind a shared pointer that `new_scope` clones, so
/// a container and all of its scopes share one value; a scoped dependency
/// gets a cell of its own that every new scope starts empty.
pub proof fn lemma_scopes_share_singletons(c: processing::Container, r: Container, i: int)
    requires
        container_from(c, r),
        r.fields is Some,
        0 <= i < r.fields->0@.len(),
    ensures
        managed_dependencies(c.dependencies@)[i].lifetime is Singleton ==> {
            &&& r.fields->0@[i].ty@ == "std::rc::Rc<std::cell::OnceCell<"@ + stored_type(
                managed_dependencies(c.dependencies@)[i],
            ) + ">>"@
            &&& r.scope_constructors@[i].init@ == "self."@ + r.fields->0@[i].ident@ + ".clone()"@
        },
        managed_dependencies(c.dependencies@)[i].lifetime is Scoped ==> {
            &&& r.fields->0@[i].ty@ == "std::cell::OnceCell<"@ + stored_type(
                managed_dependencies(c.dependencies@)[i],
            ) + ">"@
            &&& r.scope_constructors@[i].init@ == "Default::default()"@
        },
        r.constructors@[i].init@ == "Default::default()"@,
{
    let fields = r.fields->0;
    assert(fields_for(fields@, managed_dependencies(c.dependencies@)));
}


/// The name and type of each field.
pub open spec fn field_views(fields: Seq<Field>) -> Seq<(Seq<char>, Seq<char>)> {
    fields.map_values(|f: Field| (f.ident@, f.ty@))
}

/// The name and initialiser of each field initialiser.
pub open spec fn value_views(values: Seq<FieldValue>) -> Seq<(Seq<char>, Seq<char>)> {
    values.map_values(|v: FieldValue| (v.ident@, v.init@))
}

/// The container's fields, `new` initialisers and `new_scope` initialisers
/// are what `get_struct_fields`, `get_struct_field_constructors` and
/// `get_new_scope_constructors` give for the managed dependencies, in order:
/// any results those three may give for that list agree with the container.
pub proof fn lemma_container_parts_are_helper_results(
    c: processing::Container,
    r: Container,
    fields: Option<Vec<Field>>,
    constructors: Vec<FieldValue>,
    scope_constructors: Vec<FieldValue>,
)
    requires
        container_from(c, r),
        fields is None <==> managed_dependencies(c.dependencies@).len() == 0,
        fields matches Some(f) ==> fields_for(f@, managed_dependencies(c.dependencies@)),
        values_for(
            constructors@,
            managed_dependencies(c.dependencies@),
            |d: processing::Dependency| default_init(d),
        ),
        values_for(
            scope_constructors@,
            managed_dependencies(c.dependencies@),
            |d: processing::Dependency| scope_init(d),
        ),
    ensures
        r.fields is None <==> fields is None,
        (r.fields is Some && fields is Some) ==> field_views(r.fields->0@) == field_views(
            fields->0@,
        ),
        value_views(r.constructors@) == value_views(constructors@),
        value_views(r.scope_constructors@) == value_views(scope_constructors@),
        r.fields is None ==> r.constructors@.len() == 0 && r.scope_constructors@.len() == 0,
{
    let m = managed_dependencies(c.dependencies@);
    if r.fields is Some && fields is Some {
        let a = r.fields->0;
        let b = fields->0;
        assert(field_views(a@) =~= field_views(b@));
    }
    assert(value_views(r.constructors@) =~= value_views(constructors@));
    assert(value_views(r.scope_constructors@) =~= value_views(scope_constructors@));
}

/// The struct has a lifetime parameter exactly when some managed dependency
/// is boxed; that is the field whose type gains the `'a` bound, and every
/// other field's type is built from the registered type alone.
pub proof fn lemma_lifetime_parameter_iff_boxed_field(c: processing::Container, r: Container)
    requires
        container_from(c, r),
    ensures
        r.lifetime_generic is Some <==> exists|i: int|
            0 <= i < managed_dependencies(c.dependencies@).len()
                && (#[trigger] managed_dependencies(c.dependencies@)[i]).is_boxed,
        r.fields matches Some(fields) ==> forall|i: int|
            0 <= i < fields@.len() ==> (#[trigger] fields@[i]).ty@ == field_type(
                managed_dependencies(c.dependencies@)[i],
            ) && stored_type(managed_dependencies(c.dependencies@)[i]) == if managed_dependencies(
                c.dependencies@,
            )[i].is_boxed {
                "std::boxed::Box<"@ + managed_dependencies(c.dependencies@)[i].ty@ + " + 'a>"@
            } else {
                managed_dependencies(c.dependencies@)[i].ty@
            },
{
    broadcast use vstd::seq_lib::group_filter_ensures;

    let deps = c.dependencies@;
    let m = managed_dependencies(deps);
    if needs_lifetime(deps) {
        let k = choose|k: int| 0 <= k < deps.len() && #[trigger] deps[k].is_boxed && deps[k].lifetime.managed();
        assert(deps.filter(|d: processing::Dependency| d.lifetime.managed()).contains(deps[k]));
        let i = choose|i: int| 0 <= i < m.len() && m[i] == deps[k];
        assert(m[i].is_boxed);
    }
    if exists|i: int| 0 <= i < m.len() && (#[trigger] m[i]).is_boxed {
        let i = choose|i: int| 0 <= i < m.len() && (#[trigger] m[i]).is_boxed;
        assert(m.contains(m[i]));
        deps.lemma_filter_contains_rev(|d: processing::Dependency| d.lifetime.managed(), m[i]);
        let k = choose|k: int| 0 <= k < deps.len() && deps[k] == m[i];
        assert(deps[k].is_boxed && deps[k].lifetime.managed());
    }
}


/// The `create_` function returns the registered type, boxed as
/// `std::boxed::Box<ty + '_>` exactly when the dependency is boxed, whatever
/// its lifetime; the accessor returns that same type, or a reference to it
/// when the dependency is managed.
pub proof fn lemma_created_type_boxes_boxed(
    d: processing::Dependency,
    deps: Seq<processing::Dependency>,
    r: Dependency,
)
    requires
        dependency_from(d, deps, r),
    ensures
        d.is_boxed ==> r.create_ty@ == "std::boxed::Box<"@ + d.ty@ + " + '_>"@,
        !d.is_boxed ==> r.create_ty@ == d.ty@,
        d.lifetime.managed() ==> r.ty@ == "&"@ + r.create_ty@,
        !d.lifetime.managed() ==> r.ty@ == r.create_ty@,
{
}

} // verus!
