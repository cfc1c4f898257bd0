//! Small vocabulary of the language server: the kinds of symbol a document
//! holds, how file changes are watched, and how a function is offered as a
//! completion.
use vstd::prelude::*;

verus! {

/// A kind of symbol that can live in a document.
#[derive(Debug, Clone, Copy, PartialEq, Eq, Structural, Hash, PartialOrd, Ord)]
pub enum SymbolKind {
    Field,
    Function,
    Method,
    Local,
    Module,
    Extend,
    SelfParam,
    SelfType,
    Struct,
    TypeAlias,
}

/// Who watches the workspace for file changes.
#[derive(Debug, Clone, Copy, PartialEq, Eq, Structural)]
pub enum FilesWatcher {
    Client,
    Notify,
}

/// An entry of a completion list: what kind of symbol it offers, the text
/// inserted, and an optional detail shown beside it.
pub struct CompletionItem {
    pub kind: SymbolKind,
    pub label: String,
    pub detail: Option<String>,
}

/// The detail shown beside a function completion: an arrow and the function's
/// rendered return type.
pub open spec fn function_detail(ret_type: Seq<char>) -> Seq<char> {
    seq!['-', '>', ' '] + ret_type
}

/// Renders a function as a completion item. `ret_type` is the function's
/// return type as it is displayed to the user.
pub struct FunctionRender {
    pub name: String,
    pub ret_type: String,
}

impl FunctionRender {
    /// Prepares the rendering of a function: it is offered under the name it
    /// is known by locally, or else under its own name.
    pub fn new(local_name: Option<String>, func_name: String, ret_type: String) -> (r: Option<
        FunctionRender,
    >)
        ensures
            r is Some,
            r->Some_0.name@ == (match local_name {
                Some(n) => n@,
                None => func_name@,
            }),
            r->Some_0.ret_type@ == ret_type@,
    {
        let name = match local_name {
            Some(n) => n,
            None => func_name,
        };
        Some(FunctionRender { name, ret_type })
    }

    /// The completion item for the function: a function symbol labelled with
    /// its name, whose detail is its return type.
    pub fn render(self) -> (item: CompletionItem)
        ensures
            item.kind == SymbolKind::Function,
            item.label@ == self.name@,
            item.detail is Some,
            item.detail->Some_0@ == function_detail(self.ret_type@),
    {
        let mut detail = String::from_str("-> ");
        proof {
            reveal_strlit("-> ");
        }
        detail.append(self.ret_type.as_str());
        CompletionItem { kind: SymbolKind::Function, label: self.name, detail: Some(detail) }
    }
}

} // verus!
