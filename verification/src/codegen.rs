use vstd::prelude::*;

use crate::output::{ChildDependency, Container, Dependency, Field, FieldValue};
use crate::text::{append_all, append_joined, concat, join, views};

verus! {

// ---------------------------------------------------------------------
// The generated source text.

/// Each piece followed by a line break.
pub open spec fn lines(items: Seq<Seq<char>>) -> Seq<char>
    decreases items.len(),
{
    if items.len() == 0 {
        Seq::empty()
    } else {
        lines(items.drop_last()) + items.last() + "\n"@
    }
}

/// `kw` and a space where `on` holds, nothing otherwise.
pub open spec fn keyword(on: bool, kw: Seq<char>) -> Seq<char> {
    if on {
        kw + " "@
    } else {
        Seq::empty()
    }
}

/// The ABI and a space where there is one.
pub open spec fn abi_text(abi: Option<String>) -> Seq<char> {
    match abi {
        Some(a) => a@ + " "@,
        None => Seq::empty(),
    }
}

/// The qualifiers that go before `fn`.
pub open spec fn qualifiers(constness: bool, asyncness: bool, unsafety: bool, abi: Option<String>) -> Seq<
    char,
> {
    keyword(constness, "const"@) + keyword(asyncness, "async"@) + keyword(unsafety, "unsafe"@)
        + abi_text(abi)
}

/// The parameter list of the `create_` function: the registered parameters,
/// then the variadic one, separated by a comma where both are present.
pub open spec fn params_text(d: Dependency) -> Seq<char> {
    "("@ + join(views(d.inputs@), ", "@) + match d.variadic {
        Some(v) => (if d.inputs@.len() > 0 {
            ", "@
        } else {
            Seq::<char>::empty()
        }) + v@,
        None => Seq::<char>::empty(),
    } + ")"@
}

/// The `create_` function: the registered function renamed, returning the
/// created type.
pub open spec fn create_fn_text(d: Dependency) -> Seq<char> {
    qualifiers(d.constness, d.create_asyncness, d.unsafety, d.abi) + "fn "@ + d.create_ident@
        + d.generics@ + params_text(d) + " -> "@ + d.create_ty@ + " "@ + d.block@ + "\n"@
}

/// The statement that obtains a child dependency inside an accessor.
pub open spec fn child_stmt(c: ChildDependency) -> Seq<char> {
    "let "@ + c.ident@ + " = self."@ + c.ident@ + "()"@ + (if c.awaitness {
        ".await"@
    } else {
        Seq::<char>::empty()
    }) + ";\n"@
}

/// How a child dependency is passed to the `create_` function.
pub open spec fn child_param(c: ChildDependency) -> Seq<char> {
    if c.is_ref {
        "&"@ + c.ident@
    } else {
        c.ident@
    }
}

/// The call of the `create_` function with every child, not awaited.
pub open spec fn unawaited_call(d: Dependency) -> Seq<char> {
    "self."@ + d.create_ident@ + "("@ + join(d.dependencies@.map_values(|c: ChildDependency| child_param(c)), ", "@)
        + ")"@
}

/// The call of the `create_` function, awaited where the registered
/// function is async.
pub open spec fn plain_call(d: Dependency) -> Seq<char> {
    unawaited_call(d) + (if d.create_asyncness {
        ".await"@
    } else {
        Seq::<char>::empty()
    })
}

/// What an accessor returns: for a managed dependency, the value in its
/// field, created on first use (an async one hands the cell the creating
/// future and awaits the cell); otherwise a freshly created value.
pub open spec fn create_call(d: Dependency) -> Seq<char> {
    if d.is_managed {
        if d.create_asyncness {
            "self."@ + d.ident@ + ".get_or_init("@ + unawaited_call(d) + ").await"@
        } else {
            "self."@ + d.ident@ + ".get_or_init(|| "@ + unawaited_call(d) + ")"@
        }
    } else {
        plain_call(d)
    }
}

/// The public accessor of a dependency.
pub open spec fn accessor_text(d: Dependency) -> Seq<char> {
    lines(views(d.attrs@)) + "pub "@ + qualifiers(d.constness, d.asyncness, d.unsafety, d.abi)
        + "fn "@ + d.ident@ + d.generics@ + "(&self) -> "@ + d.ty@ + " {\n"@ + concat(
        d.dependencies@.map_values(|c: ChildDependency| child_stmt(c)),
    ) + create_call(d) + "\n}\n"@
}

/// The source of one dependency: its `create_` function, then its accessor.
pub open spec fn dependency_text(d: Dependency) -> Seq<char> {
    create_fn_text(d) + accessor_text(d)
}


/// The lifetime parameter of the generated struct, if it needs one.
pub open spec fn generic_text(c: Container) -> Seq<char> {
    match c.lifetime_generic {
        Some(g) => g@,
        None => Seq::empty(),
    }
}

/// A field declaration, without its separator.
pub open spec fn field_text(f: Field) -> Seq<char> {
    f.ident@ + ": "@ + f.ty@
}

/// The body of the generated struct: named fields, separated by commas, or
/// none at all.
pub open spec fn fields_text(c: Container) -> Seq<char> {
    match c.fields {
        Some(fs) => " { "@ + join(fs@.map_values(|f: Field| field_text(f)), ", "@) + " }"@,
        None => ";"@,
    }
}

/// A field initialiser.
pub open spec fn value_text(v: FieldValue) -> Seq<char> {
    v.ident@ + ": "@ + v.init@
}

/// What follows `Self` in a constructor: nothing for a struct without
/// fields, else the braced initialisers.
pub open spec fn values_text(vs: Seq<FieldValue>) -> Seq<char> {
    if vs.len() == 0 {
        Seq::empty()
    } else {
        " { "@ + join(vs.map_values(|v: FieldValue| value_text(v)), ", "@) + " }"@
    }
}

/// The source of the generated container: the struct, then an `impl`
/// block with `new`, `new_scope` and every dependency.
pub open spec fn container_text(c: Container) -> Seq<char> {
    lines(views(c.attrs@)) + ("struct "@ + struct_and_impl_text(c))
}

/// What follows `struct ` in the generated container.
pub open spec fn struct_and_impl_text(c: Container) -> Seq<char> {
    c.self_ty@ + generic_text(c) + fields_text(c)
        + "\n\nimpl"@ + generic_text(c) + " "@ + c.self_ty@ + generic_text(c)
        + " {\npub fn new() -> Self {\nSelf"@ + values_text(c.constructors@)
        + "\n}\n\npub fn new_scope(&self) -> Self {\nSelf"@ + values_text(c.scope_constructors@)
        + "\n}\n\n"@ + concat(c.dependencies@.map_values(|d: Dependency| dependency_text(d))) + "}\n"@
}

// ---------------------------------------------------------------------
// Building the text.

/// Appends each string and a line break after it.
pub fn append_lines(out: &mut String, items: &Vec<String>)
    ensures
        final(out)@ == old(out)@ + lines(views(items@)),
{
    let ghost start = out@;
    let ghost all = views(items@);
    let n = items.len();
    for i in 0..n
        invariant
            n == items.len(),
            all == views(items@),
            out@ == start + lines(all.take(i as int)),
    {
        out.append(items[i].as_str());
        out.append("\n");
        assert(all.take(i + 1).drop_last() =~= all.take(i as int));
        assert(all.take(i + 1).last() == items@[i as int]@);
    }
    assert(all.take(n as int) =~= all);
}

fn keyword_string(on: bool, kw: &str) -> (r: String)
    ensures
        r@ == keyword(on, kw@),
{
    let mut r = String::new();
    if on {
        r.append(kw);
        r.append(" ");
    }
    assert(r@ =~= keyword(on, kw@));
    r
}

fn qualifiers_string(constness: bool, asyncness: bool, unsafety: bool, abi: &Option<String>) -> (r:
    String)
    ensures
        r@ == qualifiers(constness, asyncness, unsafety, *abi),
{
    let mut r = keyword_string(constness, "const");
    let a = keyword_string(asyncness, "async");
    r.append(a.as_str());
    let u = keyword_string(unsafety, "unsafe");
    r.append(u.as_str());
    match abi {
        Some(x) => {
            r.append(x.as_str());
            r.append(" ");
        },
        None => {},
    }
    assert(r@ =~= qualifiers(constness, asyncness, unsafety, *abi));
    r
}

impl Dependency {
    fn params_string(&self) -> (r: String)
        ensures
            r@ == params_text(*self),
    {
        let mut r = String::from_str("(");
        append_joined(&mut r, &self.inputs, ", ");
        let ghost mid = r@;
        let mut tail = String::new();
        match &self.variadic {
            Some(v) => {
                if self.inputs.len() > 0 {
                    tail.append(", ");
                }
                tail.append(v.as_str());
            },
            None => {},
        }
        r.append(tail.as_str());
        r.append(")");
        assert(r@ =~= params_text(*self));
        r
    }

    fn create_call_string(&self) -> (r: String)
        ensures
            r@ == create_call(*self),
    {
        let mut params: Vec<String> = Vec::new();
        let n = self.dependencies.len();
        for j in 0..n
            invariant
                n == self.dependencies@.len(),
                params@.len() == j,
                forall|k: int|
                    0 <= k < j ==> (#[trigger] params@[k])@ == child_param(self.dependencies@[k]),
        {
            let c = &self.dependencies[j];
            let p = if c.is_ref {
                crate::text::cat2("&", c.ident.as_str())
            } else {
                c.ident.clone()
            };
            params.push(p);
        }
        assert(views(params@) =~= self.dependencies@.map_values(
            |c: ChildDependency| child_param(c),
        ));
        let mut call = String::from_str("self.");
        call.append(self.create_ident.as_str());
        call.append("(");
        append_joined(&mut call, &params, ", ");
        call.append(")");
        assert(call@ =~= unawaited_call(*self));
        if self.is_managed {
            let mut r = String::from_str("self.");
            r.append(self.ident.as_str());
            if self.create_asyncness {
                r.append(".get_or_init(");
                r.append(call.as_str());
                r.append(").await");
            } else {
                r.append(".get_or_init(|| ");
                r.append(call.as_str());
                r.append(")");
            }
            r
        } else {
            if self.create_asyncness {
                call.append(".await");
            }
            assert(call@ =~= plain_call(*self));
            call
        }
    }

    fn child_statements(&self) -> (r: Vec<String>)
        ensures
            views(r@) == self.dependencies@.map_values(|c: ChildDependency| child_stmt(c)),
    {
        let mut stmts: Vec<String> = Vec::new();
        let n = self.dependencies.len();
        for j in 0..n
            invariant
                n == self.dependencies@.len(),
                stmts@.len() == j,
                forall|k: int|
                    0 <= k < j ==> (#[trigger] stmts@[k])@ == child_stmt(self.dependencies@[k]),
        {
            let c = &self.dependencies[j];
            let mut s = String::from_str("let ");
            s.append(c.ident.as_str());
            s.append(" = self.");
            s.append(c.ident.as_str());
            s.append("()");
            if c.awaitness {
                s.append(".await");
            }
            s.append(";\n");
            assert(s@ =~= child_stmt(*c));
            stmts.push(s);
        }
        assert(views(stmts@) =~= self.dependencies@.map_values(
            |c: ChildDependency| child_stmt(c),
        ));
        stmts
    }

    /// Appends the source of this dependency: its `create_` function and its
    /// public accessor.
    pub fn to_tokens(&self, tokens: &mut String)
        ensures
            final(tokens)@ == old(tokens)@ + dependency_text(*self),
    {
        let mut s = qualifiers_string(self.constness, self.create_asyncness, self.unsafety, &self.abi);
        s.append("fn ");
        s.append(self.create_ident.as_str());
        s.append(self.generics.as_str());
        let params = self.params_string();
        s.append(params.as_str());
        s.append(" -> ");
        s.append(self.create_ty.as_str());
        s.append(" ");
        s.append(self.block.as_str());
        s.append("\n");
        assert(s@ =~= create_fn_text(*self));
        let ghost first = s@;

        let mut a = String::new();
        append_lines(&mut a, &self.attrs);
        a.append("pub ");
        let q = qualifiers_string(self.constness, self.asyncness, self.unsafety, &self.abi);
        a.append(q.as_str());
        a.append("fn ");
        a.append(self.ident.as_str());
        a.append(self.generics.as_str());
        a.append("(&self) -> ");
        a.append(self.ty.as_str());
        a.append(" {\n");
        let stmts = self.child_statements();
        append_all(&mut a, &stmts);
        let call = self.create_call_string();
        a.append(call.as_str());
        a.append("\n}\n");
        assert(a@ =~= accessor_text(*self));

        s.append(a.as_str());
        assert(s@ =~= dependency_text(*self));
        tokens.append(s.as_str());
    }
}


fn values_string(vs: &Vec<FieldValue>) -> (r: String)
    ensures
        r@ == values_text(vs@),
{
    if vs.len() == 0 {
        return String::new();
    }
    let mut items: Vec<String> = Vec::new();
    let n = vs.len();
    for i in 0..n
        invariant
            n == vs@.len(),
            items@.len() == i,
            forall|k: int| 0 <= k < i ==> (#[trigger] items@[k])@ == value_text(vs@[k]),
    {
        items.push(crate::text::cat3(vs[i].ident.as_str(), ": ", vs[i].init.as_str()));
    }
    assert(views(items@) =~= vs@.map_values(|v: FieldValue| value_text(v)));
    let mut r = String::from_str(" { ");
    append_joined(&mut r, &items, ", ");
    r.append(" }");
    r
}

impl Container {
    fn fields_string(&self) -> (r: String)
        ensures
            r@ == fields_text(*self),
    {
        match &self.fields {
            Some(fs) => {
                let mut items: Vec<String> = Vec::new();
                let n = fs.len();
                for i in 0..n
                    invariant
                        n == fs@.len(),
                        items@.len() == i,
                        forall|k: int|
                            0 <= k < i ==> (#[trigger] items@[k])@ == field_text(fs@[k]),
                {
                    items.push(crate::text::cat3(fs[i].ident.as_str(), ": ", fs[i].ty.as_str()));
                }
                assert(views(items@) =~= fs@.map_values(|f: Field| field_text(f)));
                let mut r = String::from_str(" { ");
                append_joined(&mut r, &items, ", ");
                r.append(" }");
                r
            },
            None => String::from_str(";"),
        }
    }

    /// Appends the source of the generated container: the struct holding the
    /// managed dependencies, and its `impl` block with `new`, `new_scope`
    /// and every dependency's functions.
    pub fn to_tokens(&self, tokens: &mut String)
        ensures
            final(tokens)@ == old(tokens)@ + container_text(*self),
    {
        let generic = match &self.lifetime_generic {
            Some(g) => g.clone(),
            None => String::new(),
        };
        assert(generic@ == generic_text(*self));
        let mut s = String::new();
        s.append(self.self_ty.as_str());
        s.append(generic.as_str());
        let fields = self.fields_string();
        s.append(fields.as_str());
        s.append("\n\nimpl");
        s.append(generic.as_str());
        s.append(" ");
        s.append(self.self_ty.as_str());
        s.append(generic.as_str());
        s.append(" {\npub fn new() -> Self {\nSelf");
        let ctors = values_string(&self.constructors);
        s.append(ctors.as_str());
        s.append("\n}\n\npub fn new_scope(&self) -> Self {\nSelf");
        let scope = values_string(&self.scope_constructors);
        s.append(scope.as_str());
        s.append("\n}\n\n");
        let ghost before = s@;
        let ghost texts = self.dependencies@.map_values(|d: Dependency| dependency_text(d));
        let n = self.dependencies.len();
        for i in 0..n
            invariant
                n == self.dependencies@.len(),
                texts == self.dependencies@.map_values(|d: Dependency| dependency_text(d)),
                s@ == before + concat(texts.take(i as int)),
        {
            self.dependencies[i].to_tokens(&mut s);
            assert(texts.take(i + 1).drop_last() =~= texts.take(i as int));
        }
        assert(texts.take(n as int) =~= texts);
        s.append("}\n");
        assert(s@ =~= struct_and_impl_text(*self));
        let mut text = String::new();
        append_lines(&mut text, &self.attrs);
        text.append("struct ");
        text.append(s.as_str());
        assert(text@ =~= container_text(*self));
        tokens.append(text.as_str());
    }
}


// ---------------------------------------------------------------------
// Laws of the generated source.

/// `t` ends the text `s`.
pub open spec fn ends_with(s: Seq<char>, t: Seq<char>) -> bool {
    t.is_suffix_of(s)
}

/// The call `self.create_<name>(children)`: every child passed in order,
/// by reference where it is received by reference.
pub open spec fn call_of_create(d: Dependency) -> Seq<char> {
    "self."@ + d.create_ident@ + "("@ + join(
        d.dependencies@.map_values(
            |c: ChildDependency|
                if c.is_ref {
                    "&"@ + c.ident@
                } else {
                    c.ident@
                },
        ),
        ", "@,
    ) + ")"@
}

proof fn lemma_ends_with_concat(p: Seq<char>, t: Seq<char>)
    ensures
        ends_with(p + t, t),
{
    assert(t =~= (p + t).subrange(p.len() as int, (p + t).len() as int));
}

proof fn lemma_ends_with_concat3(p: Seq<char>, q: Seq<char>, r: Seq<char>)
    ensures
        ends_with(p + q + r, q + r),
{
    assert(q + r =~= (p + q + r).subrange(p.len() as int, (p + q + r).len() as int));
}

proof fn lemma_ends_with_prefix(p: Seq<char>, s: Seq<char>, t: Seq<char>)
    requires
        ends_with(s, t),
    ensures
        ends_with(p + s, t),
{
    assert((p + s).subrange((p + s).len() - t.len(), (p + s).len() as int) =~= s.subrange(
        s.len() - t.len(),
        s.len() as int,
    ));
}

/// Each accessor ends by returning its value: an unmanaged dependency
/// returns the call of its `create_` function, awaited exactly when that
/// function is async; a managed one returns the value in its cell,
/// initialised by that call (with a sync closure, or by handing over the
/// future and awaiting the cell).
pub proof fn lemma_accessor_returns_created_value(d: Dependency)
    ensures
        !d.is_managed && d.create_asyncness ==> ends_with(
            dependency_text(d),
            call_of_create(d) + ".await"@ + "\n}\n"@,
        ),
        !d.is_managed && !d.create_asyncness ==> ends_with(
            dependency_text(d),
            call_of_create(d) + "\n}\n"@,
        ),
        d.is_managed && d.create_asyncness ==> ends_with(
            dependency_text(d),
            "self."@ + d.ident@ + ".get_or_init("@ + call_of_create(d) + ").await"@ + "\n}\n"@,
        ),
        d.is_managed && !d.create_asyncness ==> ends_with(
            dependency_text(d),
            "self."@ + d.ident@ + ".get_or_init(|| "@ + call_of_create(d) +  ")"@ + "\n}\n"@,
        ),
{
    let params = d.dependencies@.map_values(|c: ChildDependency| child_param(c));
    let params2 = d.dependencies@.map_values(
        |c: ChildDependency|
            if c.is_ref {
                "&"@ + c.ident@
            } else {
                c.ident@
            },
    );
    assert(params =~= params2);
    assert(unawaited_call(d) == call_of_create(d));
    let head = lines(views(d.attrs@)) + "pub "@ + qualifiers(
        d.constness,
        d.asyncness,
        d.unsafety,
        d.abi,
    ) + "fn "@ + d.ident@ + d.generics@ + "(&self) -> "@ + d.ty@ + " {\n"@ + concat(
        d.dependencies@.map_values(|c: ChildDependency| child_stmt(c)),
    );
    let tail = create_call(d) + "\n}\n"@;
    assert(accessor_text(d) == head + create_call(d) + "\n}\n"@);
    lemma_ends_with_concat3(head, create_call(d), "\n}\n"@);
    lemma_ends_with_prefix(create_fn_text(d), accessor_text(d), tail);
    if !d.is_managed && d.create_asyncness {
        assert(tail =~= call_of_create(d) + ".await"@ + "\n}\n"@);
    } else if !d.is_managed {
        assert(tail =~= call_of_create(d) + "\n}\n"@);
    } else if d.create_asyncness {
        assert(tail =~= "self."@ + d.ident@ + ".get_or_init("@ + call_of_create(d)
            + ").await"@ + "\n}\n"@);
    } else {
        assert(tail =~= "self."@ + d.ident@ + ".get_or_init(|| "@ + call_of_create(d)
            +  ")"@ + "\n}\n"@);
    }
}

/// Where line `i` of a block of lines starts: after every earlier line and
/// its line break.
pub open spec fn line_offset(items: Seq<Seq<char>>, i: int) -> int
    decreases i,
{
    if i <= 0 {
        0
    } else {
        line_offset(items, i - 1) + items[i - 1].len() + 1
    }
}

proof fn lemma_line_offset_prefix(items: Seq<Seq<char>>, n: int, i: int)
    requires
        0 <= i <= n <= items.len(),
    ensures
        line_offset(items.take(n), i) == line_offset(items, i),
    decreases i,
{
    if i > 0 {
        lemma_line_offset_prefix(items, n, i - 1);
        assert(items.take(n)[i - 1] == items[i - 1]);
    }
}

proof fn lemma_subrange_of_prefix(p: Seq<char>, r: Seq<char>, lo: int, hi: int)
    requires
        0 <= lo <= hi <= p.len(),
    ensures
        (p + r).subrange(lo, hi) == p.subrange(lo, hi),
        hi < p.len() ==> (p + r)[hi] == p[hi],
{
    assert((p + r).subrange(lo, hi) =~= p.subrange(lo, hi));
}

/// A block of lines is as long as its lines and their line breaks.
pub proof fn lemma_lines_len(items: Seq<Seq<char>>)
    ensures
        lines(items).len() == line_offset(items, items.len() as int),
    decreases items.len(),
{
    reveal_strlit("\n");
    if items.len() > 0 {
        let n = items.len() - 1;
        let init = items.drop_last();
        lemma_lines_len(init);
        assert(init =~= items.take(n as int));
        lemma_line_offset_prefix(items, n as int, n as int);
    }
}

/// Line `i` of a block of lines holds item `i`, followed by a line break.
pub proof fn lemma_line_at(items: Seq<Seq<char>>, i: int)
    requires
        0 <= i < items.len(),
    ensures
        line_offset(items, i) + items[i].len() < lines(items).len(),
        lines(items).subrange(line_offset(items, i), line_offset(items, i) + items[i].len())
            == items[i],
        lines(items)[line_offset(items, i) + items[i].len()] == '\n',
    decreases items.len(),
{
    reveal_strlit("\n");
    let n = items.len() - 1;
    let init = items.drop_last();
    assert(init =~= items.take(n as int));
    lemma_lines_len(init);
    lemma_line_offset_prefix(items, n as int, n as int);
    let l = lines(items);
    let li = lines(init);
    assert(l == li + items[n] + "\n"@);
    if i == n {
        assert(l =~= li + (items[n] + "\n"@));
        assert(l.subrange(li.len() as int, (li.len() + items[n].len()) as int) =~= items[n]);
        assert(l[(li.len() + items[n].len()) as int] == '\n');
    } else {
        lemma_line_at(init, i);
        lemma_line_offset_monotone(items, 0, i);
        lemma_line_offset_prefix(items, n as int, i);
        assert(init[i] == items[i]);
        lemma_line_offset_prefix(items, n as int, i + 1);
        lemma_line_offset_monotone(init, i + 1, n as int);
        assert(l =~= li + (items[n] + "\n"@));
        lemma_subrange_of_prefix(
            li,
            items[n] + "\n"@,
            line_offset(items, i),
            line_offset(items, i) + items[i].len(),
        );
    }
}

proof fn lemma_line_offset_monotone(items: Seq<Seq<char>>, i: int, j: int)
    requires
        0 <= i <= j,
    ensures
        line_offset(items, i) <= line_offset(items, j),
    decreases j - i,
{
    if i < j {
        lemma_line_offset_monotone(items, i, j - 1);
    }
}

/// The generated container starts with every attribute of the container,
/// in order, each on a line of its own, and then `struct `.
pub proof fn lemma_container_starts_with_attributes(c: Container)
    ensures
        forall|i: int|
            0 <= i < c.attrs@.len() ==> {
                &&& container_text(c).subrange(
                    line_offset(views(c.attrs@), i),
                    line_offset(views(c.attrs@), i) + c.attrs@[i]@.len(),
                ) == (#[trigger] c.attrs@[i])@
                &&& container_text(c)[line_offset(views(c.attrs@), i) + c.attrs@[i]@.len()]
                    == '\n'
            },
        container_text(c).subrange(
            line_offset(views(c.attrs@), c.attrs@.len() as int),
            line_offset(views(c.attrs@), c.attrs@.len() as int) + "struct "@.len(),
        ) == "struct "@,
{
    let a = views(c.attrs@);
    let t = container_text(c);
    let rest = "struct "@ + struct_and_impl_text(c);
    lemma_lines_len(a);
    assert forall|i: int| 0 <= i < c.attrs@.len() implies {
        &&& t.subrange(line_offset(a, i), line_offset(a, i) + c.attrs@[i]@.len())
            == (#[trigger] c.attrs@[i])@
        &&& t[line_offset(a, i) + c.attrs@[i]@.len()] == '\n'
    } by {
        assert(a[i] == c.attrs@[i]@);
        lemma_line_at(a, i);
        lemma_line_offset_monotone(a, 0, i);
        lemma_subrange_of_prefix(
            lines(a),
            rest,
            line_offset(a, i),
            line_offset(a, i) + a[i].len(),
        );
    }
    let k = lines(a).len() as int;
    assert(t.subrange(k, (k + "struct "@.len()) as int) =~= "struct "@);
}

} // verus!
