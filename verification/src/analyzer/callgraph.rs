//! The walk over the syntax of a file that finds its calls.
//!
//! The walk keeps the function and the implementation block that it is in,
//! and the local variables seen in the function so far. Each call and each
//! method call in the file gives one edge: the caller is named after where
//! the walk is, the callee after what the call site says.

use crate::analyzer::datas::FullStrcutName;
use crate::analyzer::name_resolver::{Binding, VariableDefine};
use crate::analyzer::parser_syn::SynStructName;
use crate::analyzer::syntax::{
    Attribute, Expr, ExprCall, ExprMethodCall, File, ImplItem, ImplItemMethod, Item, ItemFn,
    ItemImpl, ItemMod, Local, Pat, Stmt, Type,
};
use crate::call_data::{edges_of, CallInfo, Edge};
use crate::qualified_name::{same_text, separator, text_of};
use vstd::prelude::*;
use vstd::string::*;

verus! {

/// The function that the walk is in, as mathematics.
pub ghost enum Caller {
    Function(Seq<char>),
    Method(Seq<char>),
}

/// Where the walk is: the function, if any, and the type whose
/// implementation block it is in, if any.
pub ghost struct Context {
    pub current_function: Option<Caller>,
    pub current_impl: Option<Seq<char>>,
}

/// The state of a walk: the name of the module, the edges found, where the
/// walk is, and the local variables of the function that it is in.
pub ghost struct Scan {
    pub module_name: Seq<char>,
    pub calls: Seq<Edge>,
    pub status: Context,
    pub local_variables: Seq<Binding>,
}

/// The name of the implementing type, or the marker that stands for a
/// missing one.
pub open spec fn impl_or_marker(current_impl: Option<Seq<char>>) -> Seq<char> {
    match current_impl {
        Some(name) => name,
        None => "NonImpl"@,
    }
}

/// The name of the caller. A free function is named after the module, a
/// method after the implementing type; outside of any function the name is
/// the marker `NoData`.
pub open spec fn caller_name(module_name: Seq<char>, status: Context) -> Seq<char> {
    match status.current_function {
        Some(Caller::Function(name)) => module_name + separator() + name,
        Some(Caller::Method(name)) => impl_or_marker(status.current_impl) + separator() + name,
        None => "NoData"@,
    }
}

/// The walk has found a call of `callee`.
pub open spec fn with_call(scan: Scan, callee: Seq<char>) -> Scan {
    Scan {
        calls: scan.calls.push(
            Edge { callee, caller: caller_name(scan.module_name, scan.status) },
        ),
        ..scan
    }
}

/// The type of the variable `receiver` among the first `count` local
/// variables: that of the binding of this name that was seen last. There is
/// none where no variable has the name, or where the type of that binding is
/// not known.
pub open spec fn inferred_type(
    locals: Seq<Binding>,
    receiver: Seq<char>,
    count: nat,
) -> Option<Seq<char>>
    decreases count,
{
    if count == 0 {
        None
    } else if locals[count - 1].name == receiver {
        locals[count - 1].variable_type
    } else {
        inferred_type(locals, receiver, (count - 1) as nat)
    }
}

/// What stands in front of a method's name in the callee of a method call.
/// On `self` it is the implementing type, or the marker `NonImpl`; on a local
/// variable it is the variable's type where that is known; on anything else
/// it is nothing.
pub open spec fn receiver_prefix(scan: Scan, receiver: Expr) -> Seq<char> {
    match receiver {
        Expr::Path(path) => if path@ == "self"@ {
            impl_or_marker(scan.status.current_impl) + separator()
        } else {
            match inferred_type(scan.local_variables, path@, scan.local_variables.len()) {
                Some(name) => name + separator(),
                None => Seq::empty(),
            }
        },
        _ => Seq::empty(),
    }
}

/// The name of a type where the type is named by a path.
pub open spec fn named_type(ty: Type) -> Option<Seq<char>> {
    match ty {
        Type::Path(path) => Some(path@),
        Type::Other => None,
    }
}

/// The variable that a local binding declares. A binding with a type
/// behind a single name declares that name with that type. A binding of a
/// single name with an initialiser declares that name, and where the
/// initialiser is a path, that path counts as the type.
pub open spec fn binding_of(local: Local) -> Option<Binding> {
    match local.pat {
        Pat::Typed { pat, ty } => match *pat {
            Pat::Ident(name) => Some(Binding { name: name@, variable_type: named_type(ty) }),
            _ => None,
        },
        Pat::Ident(name) => match local.init {
            Some(init) => Some(
                Binding {
                    name: name@,
                    variable_type: match init {
                        Expr::Path(path) => Some(path@),
                        _ => None,
                    },
                },
            ),
            None => None,
        },
        Pat::Other => None,
    }
}

/// The attribute marks what it stands on as compiled for tests only.
pub open spec fn test_marker(attr: Attribute) -> bool {
    attr.path@ == "cfg"@ && attr.tokens@ == "(test)"@
}

/// One of the attributes is a test marker.
pub open spec fn test_only(attrs: Seq<Attribute>) -> bool {
    exists|i: int| 0 <= i < attrs.len() && test_marker(#[trigger] attrs[i])
}

/// The walk has left a function: it is in no function, and knows no local
/// variable.
pub open spec fn outside(scan: Scan) -> Scan {
    Scan {
        status: Context { current_function: None, ..scan.status },
        local_variables: Seq::empty(),
        ..scan
    }
}

/// The walk is in a function.
pub open spec fn inside(scan: Scan, caller: Caller) -> Scan {
    Scan { status: Context { current_function: Some(caller), ..scan.status }, ..scan }
}

/// The walk is in the implementation block of a type, or of none.
pub open spec fn implementing(scan: Scan, current_impl: Option<Seq<char>>) -> Scan {
    Scan { status: Context { current_impl, ..scan.status }, ..scan }
}

/// The state after an expression. A call of a path gives an edge to that
/// path; a method call gives an edge to the method, named as the receiver
/// allows. The edge of a call stands before the edges found inside it.
pub open spec fn after_expr(scan: Scan, expr: Expr) -> Scan
    decreases expr,
{
    match expr {
        Expr::Path(_) => scan,
        Expr::Call(call) => after_expr_call(scan, call),
        Expr::MethodCall(call) => after_expr_method_call(scan, call),
        Expr::Block(stmts) => after_stmts(scan, stmts@, stmts@.len()),
        Expr::Other(parts) => after_exprs(scan, parts@, parts@.len()),
    }
}

/// The state after a call.
pub open spec fn after_expr_call(scan: Scan, call: ExprCall) -> Scan
    decreases call,
{
    let found = match *call.func {
        Expr::Path(path) => with_call(scan, path@),
        _ => scan,
    };
    after_exprs(after_expr(found, *call.func), call.args@, call.args@.len())
}

/// The state after a method call.
pub open spec fn after_expr_method_call(scan: Scan, call: ExprMethodCall) -> Scan
    decreases call,
{
    let found = with_call(scan, receiver_prefix(scan, *call.receiver) + call.method@);
    after_exprs(after_expr(found, *call.receiver), call.args@, call.args@.len())
}

/// The state after the first `count` expressions of a list.
pub open spec fn after_exprs(scan: Scan, list: Seq<Expr>, count: nat) -> Scan
    decreases list, count,
{
    if count == 0 || count > list.len() {
        scan
    } else {
        after_expr(after_exprs(scan, list, (count - 1) as nat), list[count - 1])
    }
}

/// The state after a local binding: the variable that it declares is
/// known, and then the initialiser is read.
pub open spec fn after_local(scan: Scan, local: Local) -> Scan
    decreases local,
{
    let bound = match binding_of(local) {
        Some(binding) => Scan { local_variables: scan.local_variables.push(binding), ..scan },
        None => scan,
    };
    match local.init {
        Some(init) => after_expr(bound, init),
        None => bound,
    }
}

/// The state after a statement.
pub open spec fn after_stmt(scan: Scan, stmt: Stmt) -> Scan
    decreases stmt,
{
    match stmt {
        Stmt::Local(local) => after_local(scan, local),
        Stmt::Item(item) => after_item(scan, item),
        Stmt::Expr(expr) => after_expr(scan, expr),
    }
}

/// The state after the first `count` statements of a list.
pub open spec fn after_stmts(scan: Scan, list: Seq<Stmt>, count: nat) -> Scan
    decreases list, count,
{
    if count == 0 || count > list.len() {
        scan
    } else {
        after_stmt(after_stmts(scan, list, (count - 1) as nat), list[count - 1])
    }
}

/// The state after a free function: its body is read with the function as
/// the caller, and behind it the walk is in no function and has forgotten
/// the local variables.
pub open spec fn after_item_fn(scan: Scan, node: ItemFn) -> Scan
    decreases node,
{
    outside(
        after_stmts(
            inside(scan, Caller::Function(node.ident@)),
            node.block@,
            node.block@.len(),
        ),
    )
}

/// The state after a method.
pub open spec fn after_impl_item_method(scan: Scan, node: ImplItemMethod) -> Scan
    decreases node,
{
    outside(
        after_stmts(inside(scan, Caller::Method(node.ident@)), node.block@, node.block@.len()),
    )
}

/// The state after an item of an implementation block.
pub open spec fn after_impl_item(scan: Scan, item: ImplItem) -> Scan
    decreases item,
{
    match item {
        ImplItem::Method(node) => after_impl_item_method(scan, node),
        ImplItem::Other(parts) => after_exprs(scan, parts@, parts@.len()),
    }
}

/// The state after the first `count` items of an implementation block.
pub open spec fn after_impl_items(scan: Scan, list: Seq<ImplItem>, count: nat) -> Scan
    decreases list, count,
{
    if count == 0 || count > list.len() {
        scan
    } else {
        after_impl_item(after_impl_items(scan, list, (count - 1) as nat), list[count - 1])
    }
}

/// The state after an implementation block: its items are read with the
/// implemented type as the type of the methods, where that type is named by
/// a path, and with no type otherwise; behind the block the type is what it
/// was before.
pub open spec fn after_item_impl(scan: Scan, node: ItemImpl) -> Scan
    decreases node,
{
    implementing(
        after_impl_items(
            implementing(scan, named_type(node.self_ty)),
            node.items@,
            node.items@.len(),
        ),
        scan.status.current_impl,
    )
}

/// The state after a module: a module for tests only is passed over.
pub open spec fn after_item_mod(scan: Scan, node: ItemMod) -> Scan
    decreases node,
{
    if test_only(node.attrs@) {
        scan
    } else {
        after_items(scan, node.content@, node.content@.len())
    }
}

/// The state after an item.
pub open spec fn after_item(scan: Scan, item: Item) -> Scan
    decreases item,
{
    match item {
        Item::Fn(node) => after_item_fn(scan, node),
        Item::Impl(node) => after_item_impl(scan, node),
        Item::Mod(node) => after_item_mod(scan, node),
        Item::Other(parts) => after_exprs(scan, parts@, parts@.len()),
    }
}

/// The state after the first `count` items of a list.
pub open spec fn after_items(scan: Scan, list: Seq<Item>, count: nat) -> Scan
    decreases list, count,
{
    if count == 0 || count > list.len() {
        scan
    } else {
        after_item(after_items(scan, list, (count - 1) as nat), list[count - 1])
    }
}

/// The state after a file.
pub open spec fn after_file(scan: Scan, file: File) -> Scan {
    after_items(scan, file.items@, file.items@.len())
}

/// The state in which the walk over a module begins.
pub open spec fn start_of(module_name: Seq<char>) -> Scan {
    Scan {
        module_name,
        calls: Seq::empty(),
        status: Context { current_function: None, current_impl: None },
        local_variables: Seq::empty(),
    }
}

/// A module for tests only gives no edge: the walk passes over it, whatever
/// it holds, and is behind it where it was before it.
pub proof fn lemma_test_module_skipped(scan: Scan, node: ItemMod)
    requires
        test_only(node.attrs@),
    ensures
        after_item_mod(scan, node) == scan,
        after_item(scan, Item::Mod(node)).calls == scan.calls,
{
}

/// What every part of a walk keeps: the module stays, the implementing
/// type is behind the part what it was before it, and the edges found before
/// stay where they are, so that edges are only added behind them.
pub open spec fn kept(before: Scan, after: Scan) -> bool {
    &&& after.module_name == before.module_name
    &&& after.status.current_impl == before.status.current_impl
    &&& before.calls.len() <= after.calls.len()
    &&& after.calls.take(before.calls.len() as int) == before.calls
}

/// What two parts in a row keep, both keep together.
pub proof fn lemma_kept_twice(first: Scan, second: Scan, third: Scan)
    requires
        kept(first, second),
        kept(second, third),
    ensures
        kept(first, third),
{
    assert(third.calls.take(first.calls.len() as int) =~= second.calls.take(
        first.calls.len() as int,
    )) by {
        assert forall|i: int| 0 <= i < first.calls.len() implies third.calls[i]
            == second.calls[i] by {
            assert(third.calls.take(second.calls.len() as int)[i] == second.calls[i]);
        }
    }
}

/// One more edge keeps what is there.
pub proof fn lemma_kept_with_call(scan: Scan, callee: Seq<char>)
    ensures
        kept(scan, with_call(scan, callee)),
{
    assert(with_call(scan, callee).calls.take(scan.calls.len() as int) =~= scan.calls);
}

/// Nothing happening keeps everything.
pub proof fn lemma_kept_same(scan: Scan, other: Scan)
    requires
        other.module_name == scan.module_name,
        other.status.current_impl == scan.status.current_impl,
        other.calls == scan.calls,
    ensures
        kept(scan, other),
{
    assert(other.calls.take(scan.calls.len() as int) =~= scan.calls);
}

/// An expression keeps the module, the implementing type and the edges
/// found before it.
pub proof fn lemma_kept_expr(scan: Scan, expr: Expr)
    ensures
        kept(scan, after_expr(scan, expr)),
    decreases expr,
{
    match expr {
        Expr::Path(_) => {
            lemma_kept_same(scan, scan);
        },
        Expr::Call(call) => {
            let found = match *call.func {
                Expr::Path(path) => with_call(scan, path@),
                _ => scan,
            };
            match *call.func {
                Expr::Path(path) => {
                    lemma_kept_with_call(scan, path@);
                },
                _ => {
                    lemma_kept_same(scan, scan);
                },
            }
            let called = after_expr(found, *call.func);
            lemma_kept_expr(found, *call.func);
            lemma_kept_exprs(called, call.args@, call.args@.len());
            lemma_kept_twice(scan, found, called);
            lemma_kept_twice(scan, called, after_exprs(called, call.args@, call.args@.len()));
        },
        Expr::MethodCall(call) => {
            let found = with_call(scan, receiver_prefix(scan, *call.receiver) + call.method@);
            lemma_kept_with_call(scan, receiver_prefix(scan, *call.receiver) + call.method@);
            let called = after_expr(found, *call.receiver);
            lemma_kept_expr(found, *call.receiver);
            lemma_kept_exprs(called, call.args@, call.args@.len());
            lemma_kept_twice(scan, found, called);
            lemma_kept_twice(scan, called, after_exprs(called, call.args@, call.args@.len()));
        },
        Expr::Block(stmts) => {
            lemma_kept_stmts(scan, stmts@, stmts@.len());
        },
        Expr::Other(parts) => {
            lemma_kept_exprs(scan, parts@, parts@.len());
        },
    }
}

/// A list of expressions keeps them.
pub proof fn lemma_kept_exprs(scan: Scan, list: Seq<Expr>, count: nat)
    ensures
        kept(scan, after_exprs(scan, list, count)),
    decreases list, count,
{
    if count == 0 || count > list.len() {
        lemma_kept_same(scan, scan);
    } else {
        let before = after_exprs(scan, list, (count - 1) as nat);
        lemma_kept_exprs(scan, list, (count - 1) as nat);
        lemma_kept_expr(before, list[count - 1]);
        lemma_kept_twice(scan, before, after_expr(before, list[count - 1]));
    }
}

/// A statement keeps them.
pub proof fn lemma_kept_stmt(scan: Scan, stmt: Stmt)
    ensures
        kept(scan, after_stmt(scan, stmt)),
    decreases stmt,
{
    match stmt {
        Stmt::Local(local) => {
            let bound = match binding_of(local) {
                Some(binding) => Scan {
                    local_variables: scan.local_variables.push(binding),
                    ..scan
                },
                None => scan,
            };
            lemma_kept_same(scan, bound);
            match local.init {
                Some(init) => {
                    lemma_kept_expr(bound, init);
                    lemma_kept_twice(scan, bound, after_expr(bound, init));
                },
                None => {},
            }
        },
        Stmt::Item(item) => {
            lemma_kept_item(scan, item);
        },
        Stmt::Expr(expr) => {
            lemma_kept_expr(scan, expr);
        },
    }
}

/// A list of statements keeps them.
pub proof fn lemma_kept_stmts(scan: Scan, list: Seq<Stmt>, count: nat)
    ensures
        kept(scan, after_stmts(scan, list, count)),
    decreases list, count,
{
    if count == 0 || count > list.len() {
        lemma_kept_same(scan, scan);
    } else {
        let before = after_stmts(scan, list, (count - 1) as nat);
        lemma_kept_stmts(scan, list, (count - 1) as nat);
        lemma_kept_stmt(before, list[count - 1]);
        lemma_kept_twice(scan, before, after_stmt(before, list[count - 1]));
    }
}

/// An item of an implementation block keeps them.
pub proof fn lemma_kept_impl_item(scan: Scan, item: ImplItem)
    ensures
        kept(scan, after_impl_item(scan, item)),
    decreases item,
{
    match item {
        ImplItem::Method(node) => {
            let entered = inside(scan, Caller::Method(node.ident@));
            let read = after_stmts(entered, node.block@, node.block@.len());
            lemma_kept_same(scan, entered);
            lemma_kept_stmts(entered, node.block@, node.block@.len());
            lemma_kept_same(read, outside(read));
            lemma_kept_twice(scan, entered, read);
            lemma_kept_twice(scan, read, outside(read));
        },
        ImplItem::Other(parts) => {
            lemma_kept_exprs(scan, parts@, parts@.len());
        },
    }
}

/// The items of an implementation block keep them.
pub proof fn lemma_kept_impl_items(scan: Scan, list: Seq<ImplItem>, count: nat)
    ensures
        kept(scan, after_impl_items(scan, list, count)),
    decreases list, count,
{
    if count == 0 || count > list.len() {
        lemma_kept_same(scan, scan);
    } else {
        let before = after_impl_items(scan, list, (count - 1) as nat);
        lemma_kept_impl_items(scan, list, (count - 1) as nat);
        lemma_kept_impl_item(before, list[count - 1]);
        lemma_kept_twice(scan, before, after_impl_item(before, list[count - 1]));
    }
}

/// An item keeps them. In particular the implementing type is behind an
/// implementation block what it was before it, also where blocks are nested.
pub proof fn lemma_kept_item(scan: Scan, item: Item)
    ensures
        kept(scan, after_item(scan, item)),
    decreases item,
{
    match item {
        Item::Fn(node) => {
            let entered = inside(scan, Caller::Function(node.ident@));
            let read = after_stmts(entered, node.block@, node.block@.len());
            lemma_kept_same(scan, entered);
            lemma_kept_stmts(entered, node.block@, node.block@.len());
            lemma_kept_same(read, outside(read));
            lemma_kept_twice(scan, entered, read);
            lemma_kept_twice(scan, read, outside(read));
        },
        Item::Impl(node) => {
            let entered = implementing(scan, named_type(node.self_ty));
            let read = after_impl_items(entered, node.items@, node.items@.len());
            lemma_kept_impl_items(entered, node.items@, node.items@.len());
            assert(read.calls.take(scan.calls.len() as int) == scan.calls);
            assert(after_item_impl(scan, node).calls == read.calls);
        },
        Item::Mod(node) => {
            if test_only(node.attrs@) {
                lemma_kept_same(scan, scan);
            } else {
                lemma_kept_items(scan, node.content@, node.content@.len());
            }
        },
        Item::Other(parts) => {
            lemma_kept_exprs(scan, parts@, parts@.len());
        },
    }
}

/// A list of items keeps them.
pub proof fn lemma_kept_items(scan: Scan, list: Seq<Item>, count: nat)
    ensures
        kept(scan, after_items(scan, list, count)),
    decreases list, count,
{
    if count == 0 || count > list.len() {
        lemma_kept_same(scan, scan);
    } else {
        let before = after_items(scan, list, (count - 1) as nat);
        lemma_kept_items(scan, list, (count - 1) as nat);
        lemma_kept_item(before, list[count - 1]);
        lemma_kept_twice(scan, before, after_item(before, list[count - 1]));
    }
}

/// Behind a function and behind a method the walk is in no function and
/// knows no local variable.
pub proof fn lemma_function_left(scan: Scan, node: ItemFn, method: ImplItemMethod)
    ensures
        after_item_fn(scan, node).status.current_function is None,
        after_item_fn(scan, node).local_variables.len() == 0,
        after_impl_item_method(scan, method).status.current_function is None,
        after_impl_item_method(scan, method).local_variables.len() == 0,
{
}

/// The function that the walk is in.
pub enum KindCaller {
    Function(String),
    Method(String),
}

impl View for KindCaller {
    type V = Caller;

    open spec fn view(&self) -> Caller {
        match self {
            KindCaller::Function(name) => Caller::Function(name@),
            KindCaller::Method(name) => Caller::Method(name@),
        }
    }
}

/// Where the walk is.
pub struct FnInfo {
    current_function: Option<KindCaller>,
    current_impl: Option<String>,
}

impl View for FnInfo {
    type V = Context;

    closed spec fn view(&self) -> Context {
        Context {
            current_function: match self.current_function {
                Some(caller) => Some(caller@),
                None => None,
            },
            current_impl: text_of(self.current_impl),
        }
    }
}

impl FnInfo {
    /// In no function and in no implementation block.
    pub fn new() -> (status: FnInfo)
        ensures
            status@ == (Context { current_function: None, current_impl: None }),
    {
        FnInfo { current_function: None, current_impl: None }
    }

    /// The name of the implementing type, or the marker for a missing one.
    fn impl_name(&self) -> (name: String)
        ensures
            name@ == impl_or_marker(self@.current_impl),
    {
        match &self.current_impl {
            Some(name) => name.clone(),
            None => String::from_str("NonImpl"),
        }
    }

    /// The name of the caller.
    pub fn get_caller_name(&self, module_name: &str) -> (caller: String)
        ensures
            caller@ == caller_name(module_name@, self@),
    {
        proof {
            reveal_strlit("::");
            assert("::"@ =~= separator());
        }
        match &self.current_function {
            Some(func) => match func {
                KindCaller::Function(name) => {
                    let mut caller = String::from_str(module_name);
                    caller.append("::");
                    caller.append(name.as_str());
                    caller
                },
                KindCaller::Method(name) => {
                    let mut caller = self.impl_name();
                    caller.append("::");
                    caller.append(name.as_str());
                    caller
                },
            },
            None => String::from_str("NoData"),
        }
    }
}

/// The walk over the syntax of one module.
pub struct AnalyzerCallGraph {
    calls: Vec<CallInfo>,
    status: FnInfo,
    local_variables: Vec<VariableDefine>,
    module_name: String,
}

impl View for AnalyzerCallGraph {
    type V = Scan;

    closed spec fn view(&self) -> Scan {
        Scan {
            module_name: self.module_name@,
            calls: edges_of(self.calls@),
            status: self.status@,
            local_variables: Seq::new(
                self.local_variables@.len(),
                |i: int| self.local_variables@[i]@,
            ),
        }
    }
}

impl AnalyzerCallGraph {
    /// A walk that has not begun.
    pub fn new(module_name: String) -> (analyzer: AnalyzerCallGraph)
        ensures
            analyzer@ == start_of(module_name@),
    {
        let analyzer = AnalyzerCallGraph {
            calls: Vec::new(),
            status: FnInfo::new(),
            local_variables: Vec::new(),
            module_name,
        };
        assert(analyzer@.calls =~= Seq::empty());
        assert(analyzer@.local_variables =~= Seq::empty());
        analyzer
    }

    /// Records a call of `callee` from where the walk is.
    pub fn push_callinfo(&mut self, callee: String)
        ensures
            final(self)@ == with_call(old(self)@, callee@),
    {
        let callinfo = CallInfo {
            callee,
            caller: self.status.get_caller_name(self.module_name.as_str()),
        };
        self.calls.push(callinfo);
        assert(self@.calls =~= old(self)@.calls.push(callinfo@));
    }

    /// The edges found so far, in the order of the source.
    pub fn get_callinfo(&self) -> (calls: Vec<CallInfo>)
        ensures
            edges_of(calls@) == self@.calls,
    {
        let mut calls: Vec<CallInfo> = Vec::new();
        let mut i: usize = 0;
        while i < self.calls.len()
            invariant
                i <= self.calls.len(),
                calls.len() == i,
                forall|k: int| 0 <= k < i ==> calls@[k]@ == self.calls@[k]@,
            decreases self.calls.len() - i,
        {
            calls.push(self.calls[i].duplicate());
            i = i + 1;
        }
        assert(edges_of(calls@) =~= self@.calls);
        calls
    }

    /// Reads a file.
    pub fn visit_file(&mut self, file: &File)
        ensures
            final(self)@ == after_file(old(self)@, *file),
    {
        self.visit_items(&file.items);
    }

    /// Reads a list of items.
    pub fn visit_items(&mut self, list: &Vec<Item>)
        ensures
            final(self)@ == after_items(old(self)@, list@, list@.len()),
        decreases list,
    {
        let mut i: usize = 0;
        while i < list.len()
            invariant
                i <= list.len(),
                self@ == after_items(old(self)@, list@, i as nat),
            decreases list.len() - i,
        {
            self.visit_item(&list[i]);
            i = i + 1;
        }
    }

    /// Reads an item.
    pub fn visit_item(&mut self, item: &Item)
        ensures
            final(self)@ == after_item(old(self)@, *item),
        decreases item,
    {
        match item {
            Item::Fn(node) => self.visit_item_fn(node),
            Item::Impl(node) => self.visit_item_impl(node),
            Item::Mod(node) => self.visit_item_mod(node),
            Item::Other(parts) => self.visit_exprs(parts),
        }
    }

    /// Reads a module, unless it is for tests only.
    pub fn visit_item_mod(&mut self, node: &ItemMod)
        ensures
            final(self)@ == after_item_mod(old(self)@, *node),
        decreases node,
    {
        if is_test_only(&node.attrs) {
            return ;
        }
        self.visit_items(&node.content);
    }

    /// Reads a free function.
    pub fn visit_item_fn(&mut self, node: &ItemFn)
        ensures
            final(self)@ == after_item_fn(old(self)@, *node),
        decreases node,
    {
        self.status.current_function = Some(KindCaller::Function(node.ident.clone()));
        assert(self@ == inside(old(self)@, Caller::Function(node.ident@)));
        self.visit_stmts(&node.block);
        let ghost read = self@;
        self.status.current_function = None;
        self.local_variables.clear();
        assert(self@.local_variables =~= Seq::empty());
        assert(self@ == outside(read));
    }

    /// Reads an implementation block.
    pub fn visit_item_impl(&mut self, node: &ItemImpl)
        ensures
            final(self)@ == after_item_impl(old(self)@, *node),
        decreases node,
    {
        let impl_name = match &node.self_ty {
            Type::Path(path) => Some(path.text()),
            Type::Other => None,
        };
        let mut previous = impl_name;
        std::mem::swap(&mut self.status.current_impl, &mut previous);
        assert(self@ == implementing(old(self)@, named_type(node.self_ty)));
        self.visit_impl_items(&node.items);
        let ghost read = self@;
        self.status.current_impl = previous;
        assert(self@ == implementing(read, old(self)@.status.current_impl));
    }

    /// Reads the items of an implementation block.
    pub fn visit_impl_items(&mut self, list: &Vec<ImplItem>)
        ensures
            final(self)@ == after_impl_items(old(self)@, list@, list@.len()),
        decreases list,
    {
        let mut i: usize = 0;
        while i < list.len()
            invariant
                i <= list.len(),
                self@ == after_impl_items(old(self)@, list@, i as nat),
            decreases list.len() - i,
        {
            self.visit_impl_item(&list[i]);
            i = i + 1;
        }
    }

    /// Reads an item of an implementation block.
    pub fn visit_impl_item(&mut self, item: &ImplItem)
        ensures
            final(self)@ == after_impl_item(old(self)@, *item),
        decreases item,
    {
        match item {
            ImplItem::Method(node) => self.visit_impl_item_method(node),
            ImplItem::Other(parts) => self.visit_exprs(parts),
        }
    }

    /// Reads a method.
    pub fn visit_impl_item_method(&mut self, node: &ImplItemMethod)
        ensures
            final(self)@ == after_impl_item_method(old(self)@, *node),
        decreases node,
    {
        self.status.current_function = Some(KindCaller::Method(node.ident.clone()));
        assert(self@ == inside(old(self)@, Caller::Method(node.ident@)));
        self.visit_stmts(&node.block);
        let ghost read = self@;
        self.status.current_function = None;
        self.local_variables.clear();
        assert(self@.local_variables =~= Seq::empty());
        assert(self@ == outside(read));
    }

    /// Reads a list of statements.
    pub fn visit_stmts(&mut self, list: &Vec<Stmt>)
        ensures
            final(self)@ == after_stmts(old(self)@, list@, list@.len()),
        decreases list,
    {
        let mut i: usize = 0;
        while i < list.len()
            invariant
                i <= list.len(),
                self@ == after_stmts(old(self)@, list@, i as nat),
            decreases list.len() - i,
        {
            self.visit_stmt(&list[i]);
            i = i + 1;
        }
    }

    /// Reads a statement.
    pub fn visit_stmt(&mut self, stmt: &Stmt)
        ensures
            final(self)@ == after_stmt(old(self)@, *stmt),
        decreases stmt,
    {
        match stmt {
            Stmt::Local(local) => self.visit_local(local),
            Stmt::Item(item) => self.visit_item(item),
            Stmt::Expr(expr) => self.visit_expr(expr),
        }
    }

    /// Reads a local binding.
    pub fn visit_local(&mut self, node: &Local)
        ensures
            final(self)@ == after_local(old(self)@, *node),
        decreases node,
    {
        match &node.pat {
            Pat::Typed { pat, ty } => {
                match &**pat {
                    Pat::Ident(ident) => {
                        let variable_type = match ty {
                            Type::Path(path) => Some(path.text()),
                            Type::Other => None,
                        };
                        let var = VariableDefine::new(ident.clone(), variable_type);
                        self.local_variables.push(var);
                    },
                    _ => {},
                }
            },
            Pat::Ident(ident) => {
                match &node.init {
                    Some(init) => {
                        let variable_type = match init {
                            Expr::Path(path) => Some(path.text()),
                            _ => None,
                        };
                        let var = VariableDefine::new(ident.clone(), variable_type);
                        self.local_variables.push(var);
                    },
                    None => {},
                }
            },
            Pat::Other => {},
        }
        proof {
            let bound = match binding_of(*node) {
                Some(binding) => Scan {
                    local_variables: old(self)@.local_variables.push(binding),
                    ..old(self)@
                },
                None => old(self)@,
            };
            assert(self@.local_variables =~= bound.local_variables);
            assert(self@ == bound);
        }
        match &node.init {
            Some(init) => self.visit_expr(init),
            None => {},
        }
    }

    /// Reads a list of expressions.
    pub fn visit_exprs(&mut self, list: &Vec<Expr>)
        ensures
            final(self)@ == after_exprs(old(self)@, list@, list@.len()),
        decreases list,
    {
        let mut i: usize = 0;
        while i < list.len()
            invariant
                i <= list.len(),
                self@ == after_exprs(old(self)@, list@, i as nat),
            decreases list.len() - i,
        {
            self.visit_expr(&list[i]);
            i = i + 1;
        }
    }

    /// Reads an expression.
    pub fn visit_expr(&mut self, expr: &Expr)
        ensures
            final(self)@ == after_expr(old(self)@, *expr),
        decreases expr,
    {
        match expr {
            Expr::Path(_) => {},
            Expr::Call(call) => self.visit_expr_call(call),
            Expr::MethodCall(call) => self.visit_expr_method_call(call),
            Expr::Block(stmts) => self.visit_stmts(stmts),
            Expr::Other(parts) => self.visit_exprs(parts),
        }
    }

    /// Reads a call.
    pub fn visit_expr_call(&mut self, node: &ExprCall)
        ensures
            final(self)@ == after_expr_call(old(self)@, *node),
        decreases node,
    {
        match &*node.func {
            Expr::Path(path) => {
                let callee = SynStructName::new(path);
                let mut callee_name = callee.name();
                check_callee_path(&mut callee_name, self.module_name.as_str());
                self.push_callinfo(callee_name.fullname());
            },
            _ => {},
        }
        self.visit_expr(&*node.func);
        self.visit_exprs(&node.args);
    }

    /// Reads a method call.
    pub fn visit_expr_method_call(&mut self, node: &ExprMethodCall)
        ensures
            final(self)@ == after_expr_method_call(old(self)@, *node),
        decreases node,
    {
        let mut method_name = self.receiver_name(&*node.receiver);
        method_name.append(node.method.as_str());
        self.push_callinfo(method_name);
        self.visit_expr(&*node.receiver);
        self.visit_exprs(&node.args);
    }

    /// What stands in front of the name of a method called on `receiver`.
    fn receiver_name(&self, receiver: &Expr) -> (prefix: String)
        ensures
            prefix@ == receiver_prefix(self@, *receiver),
    {
        proof {
            reveal_strlit("::");
            assert("::"@ =~= separator());
        }
        let mut method_name = String::new();
        match receiver {
            Expr::Path(path) => {
                let receiver_name = path.text();
                if same_text(receiver_name.as_str(), "self") {
                    let named_type = self.status.impl_name();
                    method_name.append(named_type.as_str());
                    method_name.append("::");
                    assert(method_name@ =~= receiver_prefix(self@, *receiver));
                } else {
                    // The binding that was seen last decides.
                    let mut i: usize = self.local_variables.len();
                    let mut found = false;
                    while i > 0 && !found
                        invariant
                            i <= self.local_variables.len(),
                            "::"@ == separator(),
                            !found ==> method_name@ == Seq::<char>::empty() && inferred_type(
                                self@.local_variables,
                                receiver_name@,
                                self@.local_variables.len(),
                            ) == inferred_type(self@.local_variables, receiver_name@, i as nat),
                            found ==> method_name@ == receiver_prefix(self@, *receiver),
                            receiver_name@ == path@,
                            receiver_name@ != "self"@,
                            *receiver == Expr::Path(*path),
                        decreases i + if found { 0int } else { 1int },
                    {
                        let v = &self.local_variables[i - 1];
                        assert(self@.local_variables[i - 1] == v@);
                        if v.same_name(receiver_name.as_str()) {
                            match v.variable_type() {
                                Some(name) => {
                                    method_name.append(name.as_str());
                                    method_name.append("::");
                                },
                                None => {},
                            }
                            found = true;
                        } else {
                            i = i - 1;
                        }
                    }
                }
            },
            _ => {},
        }
        method_name
    }
}

/// The callee of a call is recorded as the call site writes it: its path is
/// not resolved against the module, and stays as it is.
pub fn check_callee_path(callee: &mut FullStrcutName, module: &str)
    ensures
        final(callee)@ == old(callee)@,
{
}

/// Whether one of the attributes marks a module as for tests only.
pub fn is_test_only(attrs: &Vec<Attribute>) -> (found: bool)
    ensures
        found == test_only(attrs@),
{
    let mut i: usize = 0;
    while i < attrs.len()
        invariant
            i <= attrs.len(),
            forall|k: int| 0 <= k < i ==> !test_marker(#[trigger] attrs@[k]),
        decreases attrs.len() - i,
    {
        if same_text(attrs[i].path.as_str(), "cfg") && same_text(attrs[i].tokens.as_str(), "(test)") {
            return true;
        }
        i = i + 1;
    }
    false
}

} // verus!
