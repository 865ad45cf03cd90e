//! A generation pass from the front end's stream to the bindings.

use vstd::prelude::*;
use vstd::string::*;
use vstd::utf8::encode_utf8;
use crate::emit::{dep_graph, emit, emit_items, fulls, item_ok, Item};
use crate::failure::Failure;
use crate::filter::{emitted, select_all};
use crate::graph::ordered;
use crate::logger::{DummyLogger, Logger};
use crate::names::{assign_names, base_name, digits, keyword_views, keywords, names_ok, push_decimal};
use crate::options::{builtin_name_views, ikind_of_name, parser_options, BindgenOptions, LinkType};
use crate::raw::RawDecl;
use crate::registry::{Registry, RegistryModel};
use crate::strings::{lemma_views_push, views};
use crate::text::{items_text, link_views, render};
use crate::types::{nodes_model, Global, Node, NodeModel};

verus! {

/// The mathematical value of [`Bindings`].
pub struct BindingsModel {
    /// Every declaration of the headers.
    pub nodes: Seq<NodeModel>,
    /// The identifier of each node.
    pub names: Seq<Seq<char>>,
    /// The emitted declarations, in their order.
    pub items: Seq<Item>,
    /// The link targets that each function and variable carries.
    pub links: Seq<(Seq<char>, LinkType)>,
    /// What the pass had to report without being aborted.
    pub warnings: Seq<Seq<char>>,
}

/// The bindings as a value to build on: the emitted declarations in their
/// order, over the nodes and their identifiers.
#[derive(Debug, PartialEq, Eq)]
pub struct Ast {
    pub nodes: Vec<Node>,
    pub names: Vec<String>,
    pub items: Vec<Item>,
    pub links: Vec<(String, LinkType)>,
}

/// The result of a generation pass.
pub struct Bindings {
    nodes: Vec<Node>,
    names: Vec<String>,
    items: Vec<Item>,
    links: Vec<(String, LinkType)>,
    warnings: Vec<String>,
}

impl View for Bindings {
    type V = BindingsModel;

    closed spec fn view(&self) -> BindingsModel {
        BindingsModel {
            nodes: nodes_model(self.nodes@),
            names: views(self.names@),
            items: self.items@,
            links: link_views(self.links@),
            warnings: views(self.warnings@),
        }
    }
}

/// The registry after the stream was registered under the configuration, or
/// the spelling of the type that aborted the pass.
pub open spec fn graph_of(options: BindgenOptions, decls: Seq<RawDecl>) -> Result<
    RegistryModel,
    Seq<char>,
> {
    RegistryModel::empty(
        options.fail_on_unknown_type,
        ikind_of_name(options.override_enum_ty@),
    ).outcome(decls)
}

/// For each node, whether the configuration has it emitted.
pub open spec fn chosen(nodes: Seq<NodeModel>, options: BindgenOptions) -> Seq<bool> {
    Seq::new(
        nodes.len(),
        |i: int| emitted(nodes, views(options.match_pat@), options.builtins, builtin_name_views(), i),
    )
}

/// Whether `b` is what a pass over the stream gives under the configuration:
/// the nodes are those of the registry, the identifiers are the fresh ones,
/// the bodies are those of the chosen nodes in their one order, and the items
/// are those of that order.
pub open spec fn produced(options: BindgenOptions, decls: Seq<RawDecl>, b: BindingsModel) -> bool {
    &&& graph_of(options, decls) is Ok
    &&& b.nodes == graph_of(options, decls)->Ok_0.nodes
    &&& names_ok(b.nodes, keyword_views(), b.names)
    &&& ordered(dep_graph(b.nodes), chosen(b.nodes, options), fulls(b.items))
    &&& b.items == emit_items(b.nodes, fulls(b.items), fulls(b.items).len())
    &&& forall|q: int| 0 <= q < b.items.len() ==> item_ok(b.nodes, b.items, q)
    &&& b.links == link_views(options.links@)
    &&& b.warnings == pass_notes(
        graph_of(options, decls)->Ok_0.unknown,
        b.nodes,
        b.names,
        b.items,
        b.links,
    )
}

/// What is reported of a type that could not be classified.
pub open spec fn unknown_note(spelling: Seq<char>) -> Seq<char> {
    "unsupported type `"@ + spelling + "`"@
}

/// What is reported of a declaration whose identifier is not its base name.
pub open spec fn moved_note(spelling: Seq<char>, name: Seq<char>) -> Seq<char> {
    "`"@ + spelling + "` is emitted as `"@ + name + "`"@
}

/// What is reported of a link target: to how many symbols it is attached.
pub open spec fn link_note(name: Seq<char>, count: nat) -> Seq<char> {
    "link target `"@ + name + "` is attached to "@ + digits(count) + " symbols"@
}

/// The reports of the first `n` types that could not be classified.
pub open spec fn unknown_notes(unknown: Seq<Seq<char>>, n: nat) -> Seq<Seq<char>>
    decreases n,
{
    if n == 0 || n > unknown.len() {
        Seq::empty()
    } else {
        unknown_notes(unknown, (n - 1) as nat).push(unknown_note(unknown[n - 1]))
    }
}

/// The reports of those of the first `n` nodes whose identifier is not their
/// base name.
pub open spec fn moved_notes(nodes: Seq<NodeModel>, names: Seq<Seq<char>>, n: nat) -> Seq<Seq<char>>
    decreases n,
{
    if n == 0 || n > nodes.len() || n > names.len() {
        Seq::empty()
    } else if names[n - 1] != base_name(nodes, n - 1) {
        moved_notes(nodes, names, (n - 1) as nat).push(moved_note(nodes[n - 1].name, names[n - 1]))
    } else {
        moved_notes(nodes, names, (n - 1) as nat)
    }
}

/// How many of the first `n` items are the body of a function or variable.
pub open spec fn symbol_count(nodes: Seq<NodeModel>, items: Seq<Item>, n: nat) -> nat
    decreases n,
{
    if n == 0 || n > items.len() {
        0
    } else {
        symbol_count(nodes, items, (n - 1) as nat) + if !items[n - 1].forward && items[n - 1].node
            < nodes.len() && nodes[items[n - 1].node as int].is_symbol() {
            1nat
        } else {
            0nat
        }
    }
}

/// The reports of the first `n` link targets.
pub open spec fn link_notes(links: Seq<(Seq<char>, LinkType)>, count: nat, n: nat) -> Seq<Seq<char>>
    decreases n,
{
    if n == 0 || n > links.len() {
        Seq::empty()
    } else {
        link_notes(links, count, (n - 1) as nat).push(link_note(links[n - 1].0, count))
    }
}

/// What a pass reports without being aborted: the types that could not be
/// classified, then the identifiers that had to give way, then the link
/// targets as they were attached.
pub open spec fn pass_notes(
    unknown: Seq<Seq<char>>,
    nodes: Seq<NodeModel>,
    names: Seq<Seq<char>>,
    items: Seq<Item>,
    links: Seq<(Seq<char>, LinkType)>,
) -> Seq<Seq<char>> {
    unknown_notes(unknown, unknown.len()) + moved_notes(nodes, names, nodes.len()) + link_notes(
        links,
        symbol_count(nodes, items, items.len()),
        links.len(),
    )
}

/// The serialised form of bindings.
pub open spec fn text_of(b: BindingsModel) -> Seq<char> {
    items_text(b.nodes, b.names, b.links, b.items, b.items.len())
}

/// The line that a written file starts with, and the empty line behind it.
pub open spec fn banner() -> Seq<char> {
    "/* automatically generated by rust-bindgen */\n\n"@
}

fn clone_links(links: &Vec<(String, LinkType)>) -> (r: Vec<(String, LinkType)>)
    ensures
        link_views(r@) == link_views(links@),
{
    let mut out: Vec<(String, LinkType)> = Vec::new();
    let n: usize = links.len();
    let mut i: usize = 0;
    while i < n
        invariant
            n == links@.len(),
            i <= n,
            out@.len() == i,
            forall|j: int| 0 <= j < i ==> (#[trigger] out@[j]).0@ == links@[j].0@ && out@[j].1 == links@[j].1,
        decreases n - i,
    {
        out.push((links[i].0.clone(), links[i].1));
        i = i + 1;
    }
    assert(link_views(out@) =~= link_views(links@));
    out
}

fn append_bytes(sink: &mut Vec<u8>, bytes: &[u8])
    ensures
        final(sink)@ == old(sink)@ + bytes@,
{
    let n: usize = bytes.len();
    let mut i: usize = 0;
    assert(sink@ =~= old(sink)@ + bytes@.take(0));
    while i < n
        invariant
            n == bytes@.len(),
            i <= n,
            sink@ == old(sink)@ + bytes@.take(i as int),
        decreases n - i,
    {
        sink.push(bytes[i]);
        assert(sink@ =~= old(sink)@ + bytes@.take(i as int + 1));
        i = i + 1;
    }
    assert(bytes@.take(n as int) =~= bytes@);
}

fn push_unknown_notes(unknown: &Vec<String>, out: &mut Vec<String>)
    ensures
        views(final(out)@) == views(old(out)@) + unknown_notes(views(unknown@), unknown@.len()),
{
    let n: usize = unknown.len();
    let mut i: usize = 0;
    assert(views(out@) =~= views(old(out)@) + unknown_notes(views(unknown@), 0));
    while i < n
        invariant
            n == unknown@.len(),
            i <= n,
            views(out@) == views(old(out)@) + unknown_notes(views(unknown@), i as nat),
        decreases n - i,
    {
        let mut msg: String = String::from_str("unsupported type `");
        msg.append(unknown[i].as_str());
        msg.append("`");
        proof {
            lemma_views_push(out@, msg);
            assert(msg@ =~= unknown_note(views(unknown@)[i as int]));
        }
        out.push(msg);
        assert(views(out@) =~= views(old(out)@) + unknown_notes(views(unknown@), (i + 1) as nat));
        i = i + 1;
    }
}

fn push_moved_notes(nodes: &Vec<Node>, names: &Vec<String>, moved: &Vec<bool>, out: &mut Vec<String>)
    requires
        names@.len() == nodes@.len(),
        moved@.len() == nodes@.len(),
        forall|i: int|
            0 <= i < nodes@.len() ==> moved@[i] == (views(names@)[i] != base_name(nodes_model(nodes@), i)),
    ensures
        views(final(out)@) == views(old(out)@) + moved_notes(
            nodes_model(nodes@),
            views(names@),
            nodes@.len(),
        ),
{
    let ghost model = nodes_model(nodes@);
    let n: usize = nodes.len();
    let mut i: usize = 0;
    assert(views(out@) =~= views(old(out)@) + moved_notes(model, views(names@), 0));
    while i < n
        invariant
            n == nodes@.len(),
            names@.len() == n,
            moved@.len() == n,
            model == nodes_model(nodes@),
            forall|j: int| 0 <= j < n ==> moved@[j] == (views(names@)[j] != base_name(model, j)),
            i <= n,
            views(out@) == views(old(out)@) + moved_notes(model, views(names@), i as nat),
        decreases n - i,
    {
        if moved[i] {
            let mut msg: String = String::from_str("`");
            msg.append(nodes[i].name.as_str());
            msg.append("` is emitted as `");
            msg.append(names[i].as_str());
            msg.append("`");
            proof {
                lemma_views_push(out@, msg);
                assert(model[i as int] == nodes@[i as int]@);
                assert(msg@ =~= moved_note(model[i as int].name, views(names@)[i as int]));
            }
            out.push(msg);
        }
        assert(views(out@) =~= views(old(out)@) + moved_notes(model, views(names@), (i + 1) as nat));
        i = i + 1;
    }
}

fn count_symbols(nodes: &Vec<Node>, items: &Vec<Item>) -> (count: usize)
    ensures
        count == symbol_count(nodes_model(nodes@), items@, items@.len()),
{
    let ghost model = nodes_model(nodes@);
    let n: usize = items.len();
    let mut count: usize = 0;
    let mut i: usize = 0;
    while i < n
        invariant
            n == items@.len(),
            model == nodes_model(nodes@),
            i <= n,
            count <= i,
            count == symbol_count(model, items@, i as nat),
        decreases n - i,
    {
        let it = items[i];
        if !it.forward && it.node < nodes.len() {
            assert(model[it.node as int] == nodes@[it.node as int]@);
            match &nodes[it.node].global {
                Global::Var { .. } => {
                    count = count + 1;
                },
                Global::Func { .. } => {
                    count = count + 1;
                },
                _ => {},
            }
        }
        i = i + 1;
    }
    count
}

fn push_link_notes(links: &Vec<(String, LinkType)>, count: usize, out: &mut Vec<String>)
    ensures
        views(final(out)@) == views(old(out)@) + link_notes(link_views(links@), count as nat, links@.len()),
{
    let n: usize = links.len();
    let mut i: usize = 0;
    assert(views(out@) =~= views(old(out)@) + link_notes(link_views(links@), count as nat, 0));
    while i < n
        invariant
            n == links@.len(),
            i <= n,
            views(out@) == views(old(out)@) + link_notes(link_views(links@), count as nat, i as nat),
        decreases n - i,
    {
        let mut msg: String = String::from_str("link target `");
        msg.append(links[i].0.as_str());
        msg.append("` is attached to ");
        push_decimal(count as u64, &mut msg);
        msg.append(" symbols");
        proof {
            lemma_views_push(out@, msg);
            assert(msg@ =~= link_note(link_views(links@)[i as int].0, count as nat));
        }
        out.push(msg);
        assert(views(out@) =~= views(old(out)@) + link_notes(
            link_views(links@),
            count as nat,
            (i + 1) as nat,
        ));
        i = i + 1;
    }
}

fn report(logger: &dyn Logger, warnings: &Vec<String>) {
    let n: usize = warnings.len();
    let mut i: usize = 0;
    while i < n
        invariant
            n == warnings@.len(),
            i <= n,
        decreases n - i,
    {
        logger.warn(warnings[i].as_str());
        i = i + 1;
    }
}

/// Registers the front end's stream under the configuration.
pub fn translate(options: &BindgenOptions, decls: &Vec<RawDecl>) -> (r: Result<Registry, Failure>)
    ensures
        match graph_of(*options, decls@) {
            Ok(s) => r matches Ok(registry) && registry@ == s && registry.wf(),
            Err(e) => r matches Err(Failure::UnknownType(s)) && s@ == e,
        },
{
    let clang_opts = parser_options(options);
    let mut registry = Registry::new(clang_opts.fail_on_unknown_type, clang_opts.override_enum_ty);
    match registry.register_all(decls) {
        Ok(_) => Ok(registry),
        Err(e) => Err(e),
    }
}

fn report_failure(logger: &dyn Logger, e: &Failure) {
    match e {
        Failure::UnknownType(s) => {
            let mut msg: String = String::from_str("unsupported type `");
            msg.append(s.as_str());
            msg.append("`");
            logger.error(msg.as_str());
        },
        Failure::HeaderParse => {},
    }
}

/// Registers the front end's stream under the configuration and gives the
/// nodes.
///
/// Each type that could not be classified is reported as a warning; where
/// every type has to be classified, the first such type aborts the pass and
/// is reported as an error.
pub fn parse_headers(options: &BindgenOptions, decls: &Vec<RawDecl>, logger: &dyn Logger) -> (r: Result<
    Vec<Node>,
    Failure,
>)
    ensures
        match graph_of(*options, decls@) {
            Ok(s) => r matches Ok(nodes) && nodes_model(nodes@) == s.nodes,
            Err(e) => r matches Err(Failure::UnknownType(s)) && s@ == e,
        },
{
    match translate(options, decls) {
        Ok(registry) => {
            let mut notes: Vec<String> = Vec::new();
            push_unknown_notes(registry.unknown(), &mut notes);
            report(logger, &notes);
            Ok(registry.into_nodes())
        },
        Err(e) => {
            report_failure(logger, &e);
            Err(e)
        },
    }
}

impl Bindings {
    /// Translates what the front end made of the headers.
    ///
    /// `parsed` is the front end's stream of declarations, or its diagnostic
    /// where it could not parse the headers. Without a logger the diagnostics
    /// of the pass are dropped.
    pub fn generate(
        options: &BindgenOptions,
        logger: Option<&dyn Logger>,
        parsed: &Result<Vec<RawDecl>, String>,
    ) -> (r: Result<Bindings, Failure>)
        ensures
            match *parsed {
                Err(_) => r matches Err(Failure::HeaderParse),
                Ok(decls) => match graph_of(*options, decls@) {
                    Err(e) => r matches Err(Failure::UnknownType(s)) && s@ == e,
                    Ok(_) => r matches Ok(b) && produced(*options, decls@, b@),
                },
            },
    {
        let dummy = DummyLogger;
        let logger: &dyn Logger = match logger {
            Some(l) => l,
            None => &dummy,
        };
        match parsed {
            Err(diagnostic) => {
                logger.error(diagnostic.as_str());
                Err(Failure::HeaderParse)
            },
            Ok(decls) => {
                match translate(options, decls) {
                    Err(e) => {
                        report_failure(logger, &e);
                        Err(e)
                    },
                    Ok(registry) => {
                        let mut warnings: Vec<String> = Vec::new();
                        push_unknown_notes(registry.unknown(), &mut warnings);
                        let nodes = registry.into_nodes();
                        let clang_opts = parser_options(options);
                        let (names, moved) = assign_names(&nodes, &keywords());
                        let marks = select_all(
                            &nodes,
                            &clang_opts.match_pat,
                            clang_opts.builtins,
                            &clang_opts.builtin_names,
                        );
                        assert(marks@ =~= chosen(nodes_model(nodes@), *options));
                        let items = emit(&nodes, &marks);
                        let links = clone_links(&options.links);
                        assert(views(names@).len() == names@.len());
                        push_moved_notes(&nodes, &names, &moved, &mut warnings);
                        push_link_notes(&links, count_symbols(&nodes, &items), &mut warnings);
                        assert(views(warnings@) =~= pass_notes(
                            graph_of(*options, decls@)->Ok_0.unknown,
                            nodes_model(nodes@),
                            views(names@),
                            items@,
                            link_views(links@),
                        ));
                        report(logger, &warnings);
                        Ok(Bindings { nodes, names, items, links, warnings })
                    },
                }
            },
        }
    }

    /// Gives up the bindings for the emitted declarations, to build on.
    pub fn into_ast(self) -> (ast: Ast)
        ensures
            nodes_model(ast.nodes@) == self@.nodes,
            views(ast.names@) == self@.names,
            ast.items@ == self@.items,
            link_views(ast.links@) == self@.links,
    {
        Ast { nodes: self.nodes, names: self.names, items: self.items, links: self.links }
    }

    /// What the pass reported without being aborted, in the order in which
    /// the logger was told.
    pub fn warnings(&self) -> (r: &Vec<String>)
        ensures
            views(r@) == self@.warnings,
    {
        &self.warnings
    }

    /// The serialised form: each emitted declaration on a line of its own,
    /// or, where it has members and the line would be wider than
    /// [`WIDTH`](crate::text::WIDTH), broken with each member on a line.
    pub fn to_string(&self) -> (text: String)
        ensures
            text@ == text_of(self@),
    {
        render(&self.nodes, &self.names, &self.links, &self.items)
    }

    /// Appends to `sink` what a written file holds: the banner, then the
    /// serialised form, both in UTF-8.
    pub fn write(&self, sink: &mut Vec<u8>)
        ensures
            final(sink)@ == old(sink)@ + encode_utf8(banner()) + encode_utf8(text_of(self@)),
    {
        append_bytes(sink, "/* automatically generated by rust-bindgen */\n\n".as_bytes());
        let text = self.to_string();
        append_bytes(sink, text.as_str().as_bytes());
    }
}

} // verus!
