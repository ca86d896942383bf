//! The walk over the syntax of a file that lists its functions with the
//! types that they return.

use crate::analyzer::syntax::{
    Expr, ExprCall, ExprMethodCall, File, ImplItem, ImplItemMethod, Item, ItemFn, ItemImpl,
    ItemMod, Local, Stmt, Type,
};
use crate::qualified_name::{separator, text_of};
use vstd::prelude::*;
use vstd::string::*;

verus! {

/// A function and the type that it returns, as mathematics.
pub ghost struct Signature {
    pub name: Seq<char>,
    pub return_type: Seq<char>,
}

/// The state of the walk: the name of the project, the functions listed,
/// and the struct whose implementation block the walk is in, if any.
pub ghost struct Listing {
    pub project_name: Seq<char>,
    pub function_list: Seq<Signature>,
    pub current_class: Option<Seq<char>>,
}

/// The name of the type behind the arrow of a signature, where there is a
/// type and it is named by a path.
pub open spec fn return_type_of(output: Option<Type>) -> Option<Seq<char>> {
    match output {
        Some(Type::Path(path)) => Some(path@),
        _ => None,
    }
}

/// The full name of a free function: the project, then the function.
pub open spec fn function_name(listing: Listing, ident: Seq<char>) -> Seq<char> {
    listing.project_name + separator() + ident
}

/// The full name of a method: the project, the struct if the walk is in
/// the implementation block of one, then the method.
pub open spec fn method_name(listing: Listing, ident: Seq<char>) -> Seq<char> {
    match listing.current_class {
        Some(class) => listing.project_name + separator() + class + separator() + ident,
        None => listing.project_name + separator() + ident,
    }
}

/// The list with one more function, if its return type has a name.
pub open spec fn with_function(listing: Listing, name: Seq<char>, output: Option<Type>) -> Listing {
    match return_type_of(output) {
        Some(return_type) => Listing {
            function_list: listing.function_list.push(Signature { name, return_type }),
            ..listing
        },
        None => listing,
    }
}

/// The walk is in the implementation block of a struct, or of none.
pub open spec fn in_class(listing: Listing, current_class: Option<Seq<char>>) -> Listing {
    Listing { current_class, ..listing }
}

/// The state after an expression: the functions declared inside it are
/// listed.
pub open spec fn listed_expr(listing: Listing, expr: Expr) -> Listing
    decreases expr,
{
    match expr {
        Expr::Path(_) => listing,
        Expr::Call(call) => listed_expr_call(listing, call),
        Expr::MethodCall(call) => listed_expr_method_call(listing, call),
        Expr::Block(stmts) => listed_stmts(listing, stmts@, stmts@.len()),
        Expr::Other(parts) => listed_exprs(listing, parts@, parts@.len()),
    }
}

/// The state after a call.
pub open spec fn listed_expr_call(listing: Listing, call: ExprCall) -> Listing
    decreases call,
{
    listed_exprs(listed_expr(listing, *call.func), call.args@, call.args@.len())
}

/// The state after a method call.
pub open spec fn listed_expr_method_call(listing: Listing, call: ExprMethodCall) -> Listing
    decreases call,
{
    listed_exprs(listed_expr(listing, *call.receiver), call.args@, call.args@.len())
}

/// The state after the first `count` expressions of a list.
pub open spec fn listed_exprs(listing: Listing, list: Seq<Expr>, count: nat) -> Listing
    decreases list, count,
{
    if count == 0 || count > list.len() {
        listing
    } else {
        listed_expr(listed_exprs(listing, list, (count - 1) as nat), list[count - 1])
    }
}

/// The state after a local binding.
pub open spec fn listed_local(listing: Listing, local: Local) -> Listing
    decreases local,
{
    match local.init {
        Some(init) => listed_expr(listing, init),
        None => listing,
    }
}

/// The state after a statement.
pub open spec fn listed_stmt(listing: Listing, stmt: Stmt) -> Listing
    decreases stmt,
{
    match stmt {
        Stmt::Local(local) => listed_local(listing, local),
        Stmt::Item(item) => listed_item(listing, item),
        Stmt::Expr(expr) => listed_expr(listing, expr),
    }
}

/// The state after the first `count` statements of a list.
pub open spec fn listed_stmts(listing: Listing, list: Seq<Stmt>, count: nat) -> Listing
    decreases list, count,
{
    if count == 0 || count > list.len() {
        listing
    } else {
        listed_stmt(listed_stmts(listing, list, (count - 1) as nat), list[count - 1])
    }
}

/// The state after a free function: it is listed, and then the functions
/// declared in its body.
pub open spec fn listed_item_fn(listing: Listing, node: ItemFn) -> Listing
    decreases node,
{
    listed_stmts(
        with_function(listing, function_name(listing, node.ident@), node.output),
        node.block@,
        node.block@.len(),
    )
}

/// The state after a method: it is listed; its body is not read.
pub open spec fn listed_impl_item_method(listing: Listing, node: ImplItemMethod) -> Listing {
    with_function(listing, method_name(listing, node.ident@), node.output)
}

/// The state after an item of an implementation block.
pub open spec fn listed_impl_item(listing: Listing, item: ImplItem) -> Listing
    decreases item,
{
    match item {
        ImplItem::Method(node) => listed_impl_item_method(listing, node),
        ImplItem::Other(parts) => listed_exprs(listing, parts@, parts@.len()),
    }
}

/// The state after the first `count` items of an implementation block.
pub open spec fn listed_impl_items(listing: Listing, list: Seq<ImplItem>, count: nat) -> Listing
    decreases list, count,
{
    if count == 0 || count > list.len() {
        listing
    } else {
        listed_impl_item(listed_impl_items(listing, list, (count - 1) as nat), list[count - 1])
    }
}

/// The state after an implementation block: where the implemented type is
/// named by a path, its methods are listed under that name; behind the
/// block the walk is in no struct.
pub open spec fn listed_item_impl(listing: Listing, node: ItemImpl) -> Listing
    decreases node,
{
    let entered = match node.self_ty {
        Type::Path(path) => in_class(listing, Some(path@)),
        Type::Other => listing,
    };
    in_class(listed_impl_items(entered, node.items@, node.items@.len()), None)
}

/// The state after a module.
pub open spec fn listed_item_mod(listing: Listing, node: ItemMod) -> Listing
    decreases node,
{
    listed_items(listing, node.content@, node.content@.len())
}

/// The state after an item.
pub open spec fn listed_item(listing: Listing, item: Item) -> Listing
    decreases item,
{
    match item {
        Item::Fn(node) => listed_item_fn(listing, node),
        Item::Impl(node) => listed_item_impl(listing, node),
        Item::Mod(node) => listed_item_mod(listing, node),
        Item::Other(parts) => listed_exprs(listing, parts@, parts@.len()),
    }
}

/// The state after the first `count` items of a list.
pub open spec fn listed_items(listing: Listing, list: Seq<Item>, count: nat) -> Listing
    decreases list, count,
{
    if count == 0 || count > list.len() {
        listing
    } else {
        listed_item(listed_items(listing, list, (count - 1) as nat), list[count - 1])
    }
}

/// The state after a file.
pub open spec fn listed_file(listing: Listing, file: File) -> Listing {
    listed_items(listing, file.items@, file.items@.len())
}

/// The struct whose implementation block the walk is in.
pub struct StructInfo {
    current_class: Option<String>,
}

impl StructInfo {
    /// The struct's name, if the walk is in one.
    pub closed spec fn current(&self) -> Option<Seq<char>> {
        text_of(self.current_class)
    }

    /// In no struct.
    pub fn new() -> (info: StructInfo)
        ensures
            info.current() is None,
    {
        StructInfo { current_class: None }
    }
}

/// A function and the type that it returns.
#[derive(Debug, PartialEq)]
pub struct FunctionType {
    name: String,
    return_type: String,
}

impl View for FunctionType {
    type V = Signature;

    closed spec fn view(&self) -> Signature {
        Signature { name: self.name@, return_type: self.return_type@ }
    }
}

impl FunctionType {
    /// A function of this name that returns this type.
    pub fn new(name: String, return_type: String) -> (function: FunctionType)
        ensures
            function@ == (Signature { name: name@, return_type: return_type@ }),
    {
        FunctionType { name, return_type }
    }
}

/// The walk that lists the functions of a project.
pub struct AnalyzerFunction {
    project_name: String,
    function_list: Vec<FunctionType>,
    struct_info: StructInfo,
}

impl View for AnalyzerFunction {
    type V = Listing;

    closed spec fn view(&self) -> Listing {
        Listing {
            project_name: self.project_name@,
            function_list: Seq::new(
                self.function_list@.len(),
                |i: int| self.function_list@[i]@,
            ),
            current_class: self.struct_info.current(),
        }
    }
}

/// The signatures of a list of functions.
pub open spec fn signatures_of(list: Seq<FunctionType>) -> Seq<Signature> {
    Seq::new(list.len(), |i: int| list[i]@)
}

impl AnalyzerFunction {
    /// A walk that has not begun.
    pub fn new(project_name: String) -> (analyzer: AnalyzerFunction)
        ensures
            analyzer@ == (Listing {
                project_name: project_name@,
                function_list: Seq::empty(),
                current_class: None,
            }),
    {
        let analyzer = AnalyzerFunction {
            project_name,
            function_list: Vec::new(),
            struct_info: StructInfo::new(),
        };
        assert(analyzer@.function_list =~= Seq::empty());
        analyzer
    }

    /// The functions listed so far.
    pub fn get_function_list(&self) -> (list: &Vec<FunctionType>)
        ensures
            signatures_of(list@) == self@.function_list,
    {
        assert(signatures_of(self.function_list@) =~= self@.function_list);
        &self.function_list
    }

    /// Lists a function under `class_name` if its return type has a name.
    fn list_function(&mut self, class_name: String, output: &Option<Type>)
        ensures
            final(self)@ == with_function(old(self)@, class_name@, *output),
    {
        match output_to_return_type(output) {
            Some(x) => {
                let function = FunctionType::new(class_name, x);
                self.function_list.push(function);
                assert(self@.function_list =~= old(self)@.function_list.push(function@));
            },
            None => {},
        }
    }

    /// Reads a file.
    pub fn visit_file(&mut self, file: &File)
        ensures
            final(self)@ == listed_file(old(self)@, *file),
    {
        self.visit_items(&file.items);
    }

    /// Reads a list of items.
    pub fn visit_items(&mut self, list: &Vec<Item>)
        ensures
            final(self)@ == listed_items(old(self)@, list@, list@.len()),
        decreases list,
    {
        let mut i: usize = 0;
        while i < list.len()
            invariant
                i <= list.len(),
                self@ == listed_items(old(self)@, list@, i as nat),
            decreases list.len() - i,
        {
            self.visit_item(&list[i]);
            i = i + 1;
        }
    }

    /// Reads an item.
    pub fn visit_item(&mut self, item: &Item)
        ensures
            final(self)@ == listed_item(old(self)@, *item),
        decreases item,
    {
        match item {
            Item::Fn(node) => self.visit_item_fn(node),
            Item::Impl(node) => self.visit_item_impl(node),
            Item::Mod(node) => self.visit_items(&node.content),
            Item::Other(parts) => self.visit_exprs(parts),
        }
    }

    /// Reads a free function.
    pub fn visit_item_fn(&mut self, node: &ItemFn)
        ensures
            final(self)@ == listed_item_fn(old(self)@, *node),
        decreases node,
    {
        proof {
            reveal_strlit("::");
            assert("::"@ =~= separator());
        }
        let mut class_name = self.project_name.clone();
        class_name.append("::");
        class_name.append(node.ident.as_str());
        self.list_function(class_name, &node.output);
        self.visit_stmts(&node.block);
    }

    /// Reads a method.
    pub fn visit_impl_item_method(&mut self, node: &ImplItemMethod)
        ensures
            final(self)@ == listed_impl_item_method(old(self)@, *node),
    {
        proof {
            reveal_strlit("::");
            assert("::"@ =~= separator());
        }
        let mut class_name = self.project_name.clone();
        class_name.append("::");
        match &self.struct_info.current_class {
            Some(x) => {
                class_name.append(x.as_str());
                class_name.append("::");
            },
            None => {},
        }
        class_name.append(node.ident.as_str());
        assert(class_name@ =~= method_name(old(self)@, node.ident@));
        self.list_function(class_name, &node.output);
    }

    /// Reads an implementation block.
    pub fn visit_item_impl(&mut self, node: &ItemImpl)
        ensures
            final(self)@ == listed_item_impl(old(self)@, *node),
        decreases node,
    {
        match &node.self_ty {
            Type::Path(path) => {
                self.struct_info.current_class = Some(path.text());
            },
            Type::Other => {},
        }
        self.visit_impl_items(&node.items);
        let ghost read = self@;
        self.struct_info.current_class = None;
        assert(self@ == in_class(read, None));
    }

    /// Reads the items of an implementation block.
    pub fn visit_impl_items(&mut self, list: &Vec<ImplItem>)
        ensures
            final(self)@ == listed_impl_items(old(self)@, list@, list@.len()),
        decreases list,
    {
        let mut i: usize = 0;
        while i < list.len()
            invariant
                i <= list.len(),
                self@ == listed_impl_items(old(self)@, list@, i as nat),
            decreases list.len() - i,
        {
            self.visit_impl_item(&list[i]);
            i = i + 1;
        }
    }

    /// Reads an item of an implementation block.
    pub fn visit_impl_item(&mut self, item: &ImplItem)
        ensures
            final(self)@ == listed_impl_item(old(self)@, *item),
        decreases item,
    {
        match item {
            ImplItem::Method(node) => self.visit_impl_item_method(node),
            ImplItem::Other(parts) => self.visit_exprs(parts),
        }
    }

    /// Reads a list of statements.
    pub fn visit_stmts(&mut self, list: &Vec<Stmt>)
        ensures
            final(self)@ == listed_stmts(old(self)@, list@, list@.len()),
        decreases list,
    {
        let mut i: usize = 0;
        while i < list.len()
            invariant
                i <= list.len(),
                self@ == listed_stmts(old(self)@, list@, i as nat),
            decreases list.len() - i,
        {
            self.visit_stmt(&list[i]);
            i = i + 1;
        }
    }

    /// Reads a statement.
    pub fn visit_stmt(&mut self, stmt: &Stmt)
        ensures
            final(self)@ == listed_stmt(old(self)@, *stmt),
        decreases stmt,
    {
        match stmt {
            Stmt::Local(local) => match &local.init {
                Some(init) => self.visit_expr(init),
                None => {},
            },
            Stmt::Item(item) => self.visit_item(item),
            Stmt::Expr(expr) => self.visit_expr(expr),
        }
    }

    /// Reads a list of expressions.
    pub fn visit_exprs(&mut self, list: &Vec<Expr>)
        ensures
            final(self)@ == listed_exprs(old(self)@, list@, list@.len()),
        decreases list,
    {
        let mut i: usize = 0;
        while i < list.len()
            invariant
                i <= list.len(),
                self@ == listed_exprs(old(self)@, list@, i as nat),
            decreases list.len() - i,
        {
            self.visit_expr(&list[i]);
            i = i + 1;
        }
    }

    /// Reads an expression.
    pub fn visit_expr(&mut self, expr: &Expr)
        ensures
            final(self)@ == listed_expr(old(self)@, *expr),
        decreases expr,
    {
        match expr {
            Expr::Path(_) => {},
            Expr::Call(call) => {
                self.visit_expr(&*call.func);
                self.visit_exprs(&call.args);
            },
            Expr::MethodCall(call) => {
                self.visit_expr(&*call.receiver);
                self.visit_exprs(&call.args);
            },
            Expr::Block(stmts) => self.visit_stmts(stmts),
            Expr::Other(parts) => self.visit_exprs(parts),
        }
    }
}

/// The name of the type that a function returns, where the signature has
/// a type behind the arrow and that type is named by a path.
pub fn output_to_return_type(output: &Option<Type>) -> (name: Option<String>)
    ensures
        text_of(name) == return_type_of(*output),
{
    match output {
        Some(ty) => match ty {
            Type::Path(path) => Some(path.text()),
            Type::Other => None,
        },
        None => None,
    }
}

} // verus!
