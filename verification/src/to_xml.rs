//! Documents written out as indented XML text.
//!
//! Every name and every text passes through the entity encoder on its way
//! out. A tag stands on a line of its own, its children one level deeper.
use vstd::prelude::*;
use vstd::string::*;
use vstd::slice::*;
use htmlentity::entity::ICodedDataTrait;
use crate::document::{DeclarationNode, DeclarationView, Document, DocumentView, OwnedDocument};
use crate::node::dtd::{
    DtdEntity, DtdEntityView, DtdNode, DtdView, EntityDefinition, EntityDefinitionView,
    ExternalId, ExternalIdView,
};
use crate::node::name::{NameView, NodeName};
use crate::node::tag::{AttributeView, NodeAttribute, TagNode, TagView};
use crate::node::{nodes_view, Node, NodeView};

verus! {

/// What the entity encoder makes of a text: the text with its special
/// characters replaced by named or hexadecimal entities, or none where the
/// encoder fails.
pub uninterp spec fn entity_encoding(text: Seq<char>) -> Option<Seq<char>>;

/// Calls `htmlentity::entity::encode` with named-or-hexadecimal entities
/// for the HTML characters, and `to_string` on what it returns. Assumed:
/// the outcome is a function of the text alone, named `entity_encoding`.
#[verifier::external_body]
fn encode_entities(input: &str) -> (r: std::io::Result<String>)
    ensures
        match r {
            Ok(s) => entity_encoding(input@) == Some(s@),
            Err(_) => entity_encoding(input@) is None,
        },
{
    htmlentity::entity::encode(
        input.as_bytes(),
        &htmlentity::entity::EncodeType::NamedOrHex,
        &htmlentity::entity::CharacterSet::Html,
    )
        .to_string()
        .map_err(|e| std::io::Error::new(std::io::ErrorKind::Other, e))
}

/// True when the entity encoder accepts a text.
pub open spec fn escapable(text: Seq<char>) -> bool {
    entity_encoding(text) is Some
}

/// A text as the entity encoder writes it.
pub open spec fn escaped(text: Seq<char>) -> Seq<char> {
    match entity_encoding(text) {
        Some(s) => s,
        None => Seq::empty(),
    }
}

/// The depth one level further in, as far as a `usize` can count.
pub open spec fn deeper(depth: usize) -> usize {
    if depth < usize::MAX {
        (depth + 1) as usize
    } else {
        depth
    }
}

/// The indentation of a line: the tab text once for every level.
pub open spec fn indent(tab: Seq<char>, depth: nat) -> Seq<char>
    decreases depth,
{
    if depth == 0 {
        Seq::empty()
    } else {
        indent(tab, (depth - 1) as nat) + tab
    }
}

/// An attribute as it is written: ` name="value"`.
pub open spec fn attribute_rendered(a: AttributeView) -> Seq<char> {
    " "@ + escaped(a.name.qualified()) + "=\""@ + escaped(a.value.text) + "\""@
}

/// True when the entity encoder accepts the name and the value of an
/// attribute.
pub open spec fn attribute_escapable(a: AttributeView) -> bool {
    escapable(a.name.qualified()) && escapable(a.value.text)
}

/// The attributes from index `i` on as they are written.
pub open spec fn attributes_rendered(attributes: Seq<AttributeView>, i: int) -> Seq<char>
    decreases attributes.len() - i,
{
    if i < 0 || i >= attributes.len() {
        Seq::empty()
    } else {
        attribute_rendered(attributes[i]) + attributes_rendered(attributes, i + 1)
    }
}

/// True when the entity encoder accepts the attributes from index `i` on.
pub open spec fn attributes_escapable(attributes: Seq<AttributeView>, i: int) -> bool
    decreases attributes.len() - i,
{
    if i < 0 || i >= attributes.len() {
        true
    } else {
        attribute_escapable(attributes[i]) && attributes_escapable(attributes, i + 1)
    }
}

/// An external identifier as it is written: ` SYSTEM "system"` or
/// ` PUBLIC "public" "system"`.
pub open spec fn external_id_rendered(id: ExternalIdView) -> Seq<char> {
    match id {
        ExternalIdView::System(s) => " SYSTEM \""@ + escaped(s.text) + "\""@,
        ExternalIdView::Public(p, s) => " PUBLIC \""@ + escaped(p.text) + "\" \""@ + escaped(
            s.text,
        ) + "\""@,
    }
}

/// True when the entity encoder accepts the texts of an external
/// identifier.
pub open spec fn external_id_escapable(id: ExternalIdView) -> bool {
    match id {
        ExternalIdView::System(s) => escapable(s.text),
        ExternalIdView::Public(p, s) => escapable(p.text) && escapable(s.text),
    }
}

/// An entity declaration as it is written, one level deeper than the
/// document type declaration around it: `<!ENTITY name "value">`.
pub open spec fn entity_rendered(e: DtdEntityView, tab: Seq<char>, depth: usize) -> Seq<char> {
    indent(tab, deeper(depth) as nat) + "<!ENTITY "@ + escaped(e.name.text) + (match e.definition {
        EntityDefinitionView::EntityValue(v) => " \""@ + escaped(v.text) + "\""@,
        EntityDefinitionView::ExternalId(id) => external_id_rendered(id),
    }) + ">\n"@
}

/// True when the entity encoder accepts the texts of an entity
/// declaration.
pub open spec fn entity_escapable(e: DtdEntityView) -> bool {
    escapable(e.name.text) && match e.definition {
        EntityDefinitionView::EntityValue(v) => escapable(v.text),
        EntityDefinitionView::ExternalId(id) => external_id_escapable(id),
    }
}

/// The entity declarations from index `i` on as they are written.
pub open spec fn entities_rendered(
    entities: Seq<DtdEntityView>,
    i: int,
    tab: Seq<char>,
    depth: usize,
) -> Seq<char>
    decreases entities.len() - i,
{
    if i < 0 || i >= entities.len() {
        Seq::empty()
    } else {
        entity_rendered(entities[i], tab, depth) + entities_rendered(entities, i + 1, tab, depth)
    }
}

/// True when the entity encoder accepts the entity declarations from index
/// `i` on.
pub open spec fn entities_escapable(entities: Seq<DtdEntityView>, i: int) -> bool
    decreases entities.len() - i,
{
    if i < 0 || i >= entities.len() {
        true
    } else {
        entity_escapable(entities[i]) && entities_escapable(entities, i + 1)
    }
}

/// A document type declaration as it is written:
/// `<!DOCTYPE name SYSTEM "id" [`, its entities, and `]>`.
pub open spec fn dtd_rendered(d: DtdView, tab: Seq<char>, depth: usize) -> Seq<char> {
    indent(tab, depth as nat) + "<!DOCTYPE "@ + escaped(d.name.text) + (match d.external_id {
        Some(id) => external_id_rendered(id),
        None => Seq::empty(),
    }) + (if d.entities.len() > 0 {
        " [\n"@ + entities_rendered(d.entities, 0, tab, depth) + "]"@
    } else {
        Seq::empty()
    }) + ">\n"@
}

/// True when the entity encoder accepts the texts of a document type
/// declaration.
pub open spec fn dtd_escapable(d: DtdView) -> bool {
    &&& escapable(d.name.text)
    &&& match d.external_id {
        Some(id) => external_id_escapable(id),
        None => true,
    }
    &&& entities_escapable(d.entities, 0)
}

/// A node that is no tag as it is written on a line of its own. A tag
/// writes nothing here.
pub open spec fn leaf_rendered(node: NodeView, tab: Seq<char>, depth: usize) -> Seq<char> {
    match node {
        NodeView::Comment(s) => indent(tab, depth as nat) + "<!--"@ + escaped(s.text) + "-->\n"@,
        NodeView::Text(t) => indent(tab, depth as nat) + escaped(t.text.text) + "\n"@,
        NodeView::ProcessingInstruction(p) => indent(tab, depth as nat) + "<?"@ + escaped(
            p.target.text,
        ) + (match p.content {
            Some(c) => " "@ + escaped(c.text),
            None => Seq::empty(),
        }) + "?>\n"@,
        NodeView::DocumentType(d) => dtd_rendered(d, tab, depth),
        NodeView::Cdata(c) => indent(tab, depth as nat) + "<![CDATA["@ + escaped(c.content.text)
            + "]]>\n"@,
        NodeView::Child(_) => Seq::empty(),
    }
}

/// True when the entity encoder accepts the texts of a node that is no
/// tag.
pub open spec fn leaf_escapable(node: NodeView) -> bool {
    match node {
        NodeView::Comment(s) => escapable(s.text),
        NodeView::Text(t) => escapable(t.text.text),
        NodeView::ProcessingInstruction(p) => escapable(p.target.text) && match p.content {
            Some(c) => escapable(c.text),
            None => true,
        },
        NodeView::DocumentType(d) => dtd_escapable(d),
        NodeView::Cdata(c) => escapable(c.content.text),
        NodeView::Child(_) => true,
    }
}

/// The nodes from index `i` on, each written as a node that is no tag.
pub open spec fn leaves_rendered(nodes: Seq<NodeView>, i: int, tab: Seq<char>) -> Seq<char>
    decreases nodes.len() - i,
{
    if i < 0 || i >= nodes.len() {
        Seq::empty()
    } else {
        leaf_rendered(nodes[i], tab, 0) + leaves_rendered(nodes, i + 1, tab)
    }
}

/// True when the entity encoder accepts the nodes from index `i` on, each
/// taken as a node that is no tag.
pub open spec fn leaves_escapable(nodes: Seq<NodeView>, i: int) -> bool
    decreases nodes.len() - i,
{
    if i < 0 || i >= nodes.len() {
        true
    } else {
        leaf_escapable(nodes[i]) && leaves_escapable(nodes, i + 1)
    }
}

/// The line that closes a tag: `</name>`.
pub open spec fn close_rendered(name: NameView, tab: Seq<char>, depth: usize) -> Seq<char> {
    indent(tab, depth as nat) + "</"@ + escaped(name.qualified()) + ">\n"@
}

/// The start of the line that opens a tag: `<name` and the attributes.
pub open spec fn open_rendered(tag: TagView, tab: Seq<char>, depth: usize) -> Seq<char> {
    indent(tab, depth as nat) + "<"@ + escaped(tag.name.qualified()) + attributes_rendered(
        tag.attributes,
        0,
    )
}

/// A tag as it is written with all below it: on one line where it has no
/// children; else its children between the line that opens it and the line
/// that closes it, one level deeper.
pub open spec fn tag_rendered(tag: TagView, tab: Seq<char>, depth: usize) -> Seq<char>
    decreases tag, 0nat,
{
    if tag.children.len() == 0 {
        open_rendered(tag, tab, depth) + " />\n"@
    } else {
        open_rendered(tag, tab, depth) + ">\n"@ + children_rendered(
            tag.children,
            0,
            tab,
            deeper(depth),
        ) + close_rendered(tag.name, tab, depth)
    }
}

/// A node as it is written with all below it.
pub open spec fn node_rendered(node: NodeView, tab: Seq<char>, depth: usize) -> Seq<char>
    decreases node, 0nat,
{
    match node {
        NodeView::Child(t) => tag_rendered(t, tab, depth),
        _ => leaf_rendered(node, tab, depth),
    }
}

/// The children from index `i` on as they are written.
pub open spec fn children_rendered(
    nodes: Seq<NodeView>,
    i: int,
    tab: Seq<char>,
    depth: usize,
) -> Seq<char>
    decreases nodes, nodes.len() - i,
{
    if i < 0 || i >= nodes.len() {
        Seq::empty()
    } else {
        node_rendered(nodes[i], tab, depth) + children_rendered(nodes, i + 1, tab, depth)
    }
}

/// True when the entity encoder accepts every text in a tag and below it.
pub open spec fn tag_escapable(tag: TagView) -> bool
    decreases tag, 0nat,
{
    &&& escapable(tag.name.qualified())
    &&& attributes_escapable(tag.attributes, 0)
    &&& children_escapable(tag.children, 0)
}

/// True when the entity encoder accepts every text in a node and below it.
pub open spec fn node_escapable(node: NodeView) -> bool
    decreases node, 0nat,
{
    match node {
        NodeView::Child(t) => tag_escapable(t),
        _ => leaf_escapable(node),
    }
}

/// True when the entity encoder accepts every text in the children from
/// index `i` on.
pub open spec fn children_escapable(nodes: Seq<NodeView>, i: int) -> bool
    decreases nodes, nodes.len() - i,
{
    if i < 0 || i >= nodes.len() {
        true
    } else {
        node_escapable(nodes[i]) && children_escapable(nodes, i + 1)
    }
}

/// An XML declaration as it is written:
/// `<?xml version="1.0" encoding="UTF-8" standalone="true" ?>`.
pub open spec fn declaration_rendered(d: DeclarationView) -> Seq<char> {
    "<?xml version=\""@ + escaped(d.version.text) + "\""@ + (match d.encoding {
        Some(e) => " encoding=\""@ + escaped(e.text) + "\""@,
        None => Seq::empty(),
    }) + (match d.standalone {
        Some(b) => " standalone=\""@ + (if b {
            "true"@
        } else {
            "false"@
        }) + "\""@,
        None => Seq::empty(),
    }) + " ?>\n"@
}

/// True when the entity encoder accepts the texts of an XML declaration.
pub open spec fn declaration_escapable(d: DeclarationView) -> bool {
    escapable(d.version.text) && match d.encoding {
        Some(e) => escapable(e.text),
        None => true,
    }
}

/// A document as it is written: the declaration, what stands before the
/// root, the root with all below it, and what stands after it.
pub open spec fn document_rendered(doc: DocumentView, tab: Seq<char>) -> Seq<char> {
    (match doc.declaration {
        Some(d) => declaration_rendered(d),
        None => Seq::empty(),
    }) + leaves_rendered(doc.prolog, 0, tab) + tag_rendered(doc.root, tab, 0) + leaves_rendered(
        doc.epilog,
        0,
        tab,
    )
}

/// True when the entity encoder accepts every name and every text of a
/// document.
pub open spec fn document_escapable(doc: DocumentView) -> bool {
    &&& match doc.declaration {
        Some(d) => declaration_escapable(d),
        None => true,
    }
    &&& leaves_escapable(doc.prolog, 0)
    &&& tag_escapable(doc.root)
    &&& leaves_escapable(doc.epilog, 0)
}

/// The tab text that indents a level: the one given, or a tab character.
pub open spec fn tab_text(tab_char: Option<&str>) -> Seq<char> {
    match tab_char {
        Some(t) => t@,
        None => "\t"@,
    }
}

/// What is still to be written of a tag and of what follows it.
pub enum TaskView {
    /// A tag with all below it.
    OpenNode(TagView),
    /// A child with all below it.
    OpenKind(NodeView),
    /// The line that closes the tag of this name.
    Close(NameView),
}

/// What a task writes at its depth.
pub open spec fn task_rendered(task: TaskView, tab: Seq<char>, depth: usize) -> Seq<char> {
    match task {
        TaskView::OpenNode(t) => tag_rendered(t, tab, depth),
        TaskView::OpenKind(n) => node_rendered(n, tab, depth),
        TaskView::Close(name) => close_rendered(name, tab, depth),
    }
}

/// True when the entity encoder accepts every text that a task writes.
pub open spec fn task_escapable(task: TaskView) -> bool {
    match task {
        TaskView::OpenNode(t) => tag_escapable(t),
        TaskView::OpenKind(n) => node_escapable(n),
        TaskView::Close(name) => escapable(name.qualified()),
    }
}

/// What the tasks on a stack write, the last first.
pub open spec fn tasks_rendered(tasks: Seq<(TaskView, usize)>, tab: Seq<char>) -> Seq<char>
    decreases tasks.len(),
{
    if tasks.len() == 0 {
        Seq::empty()
    } else {
        task_rendered(tasks.last().0, tab, tasks.last().1) + tasks_rendered(tasks.drop_last(), tab)
    }
}

/// True when the entity encoder accepts every text that the tasks on a
/// stack write.
pub open spec fn tasks_escapable(tasks: Seq<(TaskView, usize)>) -> bool
    decreases tasks.len(),
{
    if tasks.len() == 0 {
        true
    } else {
        task_escapable(tasks.last().0) && tasks_escapable(tasks.drop_last())
    }
}

/// The number of steps that a tag with all below it takes to write.
pub open spec fn tag_weight(tag: TagView) -> nat
    decreases tag, 0nat,
{
    2 + children_weight(tag.children, 0)
}

/// The number of steps that a node with all below it takes to write.
pub open spec fn node_weight(node: NodeView) -> nat
    decreases node, 0nat,
{
    match node {
        NodeView::Child(t) => 1 + tag_weight(t),
        _ => 1,
    }
}

/// The number of steps that the children from index `i` on take to write.
pub open spec fn children_weight(nodes: Seq<NodeView>, i: int) -> nat
    decreases nodes, nodes.len() - i,
{
    if i < 0 || i >= nodes.len() {
        0
    } else {
        node_weight(nodes[i]) + children_weight(nodes, i + 1)
    }
}

/// The number of steps that the tasks on a stack take.
pub open spec fn tasks_weight(tasks: Seq<(TaskView, usize)>) -> nat
    decreases tasks.len(),
{
    if tasks.len() == 0 {
        0
    } else {
        (match tasks.last().0 {
            TaskView::OpenNode(t) => tag_weight(t),
            TaskView::OpenKind(n) => node_weight(n),
            TaskView::Close(_) => 1,
        }) + tasks_weight(tasks.drop_last())
    }
}

/// What is still to be written of a tag and of what follows it.
enum NodeTask<'a, 'src> {
    OpenNode(&'a TagNode<'src>),
    OpenKind(&'a Node<'src>),
    Close(&'a NodeName<'src>),
}

impl<'a, 'src> View for NodeTask<'a, 'src> {
    type V = TaskView;

    closed spec fn view(&self) -> TaskView {
        match self {
            NodeTask::OpenNode(t) => TaskView::OpenNode(t@),
            NodeTask::OpenKind(n) => TaskView::OpenKind(n@),
            NodeTask::Close(name) => TaskView::Close(name@),
        }
    }
}

/// What a stack of tasks stands for.
spec fn stack_view(stack: Seq<(NodeTask<'_, '_>, usize)>) -> Seq<(TaskView, usize)> {
    Seq::new(stack.len(), |i: int| (stack[i].0@, stack[i].1))
}

/// Adds the indentation of a line to the output.
fn write_indent(out: &mut String, tab: &str, depth: usize)
    ensures
        final(out)@ == old(out)@ + indent(tab@, depth as nat),
{
    let mut i: usize = 0;
    while i < depth
        invariant
            i <= depth,
            out@ == old(out)@ + indent(tab@, i as nat),
        decreases depth - i,
    {
        out.append(tab);
        i += 1;
        proof {
            assert(out@ =~= old(out)@ + indent(tab@, i as nat));
        }
    }
}

/// Adds a text to the output as the entity encoder writes it.
fn write_escaped(out: &mut String, text: &str) -> (r: std::io::Result<()>)
    ensures
        match r {
            Ok(_) => escapable(text@) && final(out)@ == old(out)@ + escaped(text@),
            Err(_) => !escapable(text@),
        },
{
    let encoded = encode_entities(text)?;
    out.append(encoded.as_str());
    Ok(())
}

/// Adds an external identifier to the output.
fn write_external_id(out: &mut String, id: &ExternalId<'_>) -> (r: std::io::Result<()>)
    ensures
        match r {
            Ok(_) => external_id_escapable(id@) && final(out)@ == old(out)@ + external_id_rendered(
                id@,
            ),
            Err(_) => !external_id_escapable(id@),
        },
{
    match id {
        ExternalId::Public(name, value) => {
            out.append(" PUBLIC \"");
            write_escaped(out, name.text())?;
            out.append("\" \"");
            write_escaped(out, value.text())?;
            out.append("\"");
        },
        ExternalId::System(value) => {
            out.append(" SYSTEM \"");
            write_escaped(out, value.text())?;
            out.append("\"");
        },
    }
    proof {
        assert(out@ =~= old(out)@ + external_id_rendered(id@));
    }
    Ok(())
}

/// Adds an entity declaration to the output.
#[verifier::rlimit(100)]
fn write_entity(out: &mut String, entity: &DtdEntity<'_>, tab: &str, depth: usize) -> (r:
    std::io::Result<()>)
    ensures
        match r {
            Ok(_) => entity_escapable(entity@) && final(out)@ == old(out)@ + entity_rendered(
                entity@,
                tab@,
                depth,
            ),
            Err(_) => !entity_escapable(entity@),
        },
{
    let inner = if depth < usize::MAX {
        depth + 1
    } else {
        depth
    };
    write_indent(out, tab, inner);
    out.append("<!ENTITY ");
    write_escaped(out, entity.name.text())?;
    let ghost head = out@;
    match &entity.definition {
        EntityDefinition::EntityValue(value) => {
            out.append(" \"");
            write_escaped(out, value.text())?;
            out.append("\"");
            proof {
                assert(out@ =~= head + (" \""@ + escaped(value@.text) + "\""@));
            }
        },
        EntityDefinition::ExternalId(id) => {
            write_external_id(out, id)?;
        },
    }
    out.append(">\n");
    proof {
        assert(out@ =~= old(out)@ + entity_rendered(entity@, tab@, depth));
    }
    Ok(())
}

/// Adds entity declarations to the output.
fn write_entities(
    out: &mut String,
    entities: &[DtdEntity<'_>],
    Ghost(all): Ghost<Seq<DtdEntityView>>,
    tab: &str,
    depth: usize,
) -> (r: std::io::Result<()>)
    requires
        entities@.len() == all.len(),
        forall|j: int| 0 <= j < entities@.len() ==> (#[trigger] entities@[j])@ == all[j],
    ensures
        match r {
            Ok(_) => entities_escapable(all, 0) && final(out)@ == old(out)@ + entities_rendered(
                all,
                0,
                tab@,
                depth,
            ),
            Err(_) => !entities_escapable(all, 0),
        },
{
    let mut i: usize = 0;
    while i < entities.len()
        invariant
            i <= entities@.len(),
            entities@.len() == all.len(),
            forall|j: int| 0 <= j < entities@.len() ==> (#[trigger] entities@[j])@ == all[j],
            entities_escapable(all, 0) == entities_escapable(all, i as int),
            out@ + entities_rendered(all, i as int, tab@, depth) == old(out)@ + entities_rendered(
                all,
                0,
                tab@,
                depth,
            ),
        decreases entities@.len() - i,
    {
        let ghost before = out@;
        match write_entity(out, &entities[i], tab, depth) {
            Ok(_) => {},
            Err(e) => {
                return Err(e);
            },
        }
        proof {
            assert(before + entities_rendered(all, i as int, tab@, depth) =~= out@
                + entities_rendered(all, i + 1, tab@, depth));
        }
        i += 1;
    }
    proof {
        assert(out@ =~= old(out)@ + entities_rendered(all, 0, tab@, depth));
    }
    Ok(())
}

/// Adds a document type declaration to the output.
#[verifier::rlimit(100)]
fn write_dtd(out: &mut String, dtd: &DtdNode<'_>, tab: &str, depth: usize) -> (r: std::io::Result<
    (),
>)
    ensures
        match r {
            Ok(_) => dtd_escapable(dtd@) && final(out)@ == old(out)@ + dtd_rendered(
                dtd@,
                tab@,
                depth,
            ),
            Err(_) => !dtd_escapable(dtd@),
        },
{
    write_indent(out, tab, depth);
    out.append("<!DOCTYPE ");
    write_escaped(out, dtd.name().text())?;
    let ghost named = out@;
    match dtd.external_id() {
        Some(id) => {
            write_external_id(out, id)?;
        },
        None => {},
    }
    let ghost identified = out@;
    proof {
        assert(identified =~= named + (match dtd@.external_id {
            Some(id) => external_id_rendered(id),
            None => Seq::empty(),
        }));
    }
    let entities = dtd.entities();
    if entities.len() > 0 {
        out.append(" [\n");
        write_entities(out, entities, Ghost(dtd@.entities), tab, depth)?;
        out.append("]");
        proof {
            assert(out@ =~= identified + (" [\n"@ + entities_rendered(
                dtd@.entities,
                0,
                tab@,
                depth,
            ) + "]"@));
        }
    }
    let ghost listed = out@;
    out.append(">\n");
    proof {
        assert(listed =~= identified + (if dtd@.entities.len() > 0 {
            " [\n"@ + entities_rendered(dtd@.entities, 0, tab@, depth) + "]"@
        } else {
            Seq::empty()
        }));
        assert(out@ =~= old(out)@ + dtd_rendered(dtd@, tab@, depth));
    }
    Ok(())
}

/// Adds a node that is no tag to the output, on a line of its own. A tag
/// adds nothing.
#[verifier::rlimit(100)]
fn write_node(out: &mut String, node: &Node<'_>, tab: &str, depth: usize) -> (r: std::io::Result<
    (),
>)
    ensures
        match r {
            Ok(_) => leaf_escapable(node@) && final(out)@ == old(out)@ + leaf_rendered(
                node@,
                tab@,
                depth,
            ),
            Err(_) => !leaf_escapable(node@),
        },
{
    match node {
        Node::Comment(span) => {
            write_indent(out, tab, depth);
            out.append("<!--");
            write_escaped(out, span.text())?;
            out.append("-->\n");
        },
        Node::Text(text_node) => {
            write_indent(out, tab, depth);
            write_escaped(out, text_node.text().text())?;
            out.append("\n");
        },
        Node::ProcessingInstruction(pi) => {
            write_indent(out, tab, depth);
            out.append("<?");
            write_escaped(out, pi.target().text())?;
            let ghost head = out@;
            match pi.content() {
                Some(content) => {
                    out.append(" ");
                    write_escaped(out, content.text())?;
                    proof {
                        assert(out@ =~= head + (" "@ + escaped(content@.text)));
                    }
                },
                None => {},
            }
            out.append("?>\n");
        },
        Node::DocumentType(dtd) => {
            write_dtd(out, dtd, tab, depth)?;
        },
        Node::Cdata(cdata) => {
            write_indent(out, tab, depth);
            out.append("<![CDATA[");
            write_escaped(out, cdata.content().text())?;
            out.append("]]>\n");
        },
        Node::Child(_) => {},
    }
    proof {
        assert(out@ =~= old(out)@ + leaf_rendered(node@, tab@, depth));
    }
    Ok(())
}

/// Adds nodes to the output, each as a node that is no tag.
fn write_leaves(out: &mut String, nodes: &[Node<'_>], tab: &str) -> (r: std::io::Result<()>)
    ensures
        match r {
            Ok(_) => leaves_escapable(nodes_view(nodes@), 0) && final(out)@ == old(out)@
                + leaves_rendered(nodes_view(nodes@), 0, tab@),
            Err(_) => !leaves_escapable(nodes_view(nodes@), 0),
        },
{
    let ghost all = nodes_view(nodes@);
    let mut i: usize = 0;
    while i < nodes.len()
        invariant
            i <= nodes@.len(),
            all == nodes_view(nodes@),
            leaves_escapable(all, 0) == leaves_escapable(all, i as int),
            out@ + leaves_rendered(all, i as int, tab@) == old(out)@ + leaves_rendered(all, 0, tab@),
        decreases nodes@.len() - i,
    {
        let ghost before = out@;
        match write_node(out, &nodes[i], tab, 0) {
            Ok(_) => {},
            Err(e) => {
                return Err(e);
            },
        }
        proof {
            assert(before + leaves_rendered(all, i as int, tab@) =~= out@ + leaves_rendered(
                all,
                i + 1,
                tab@,
            ));
        }
        i += 1;
    }
    proof {
        assert(out@ =~= old(out)@ + leaves_rendered(all, 0, tab@));
    }
    Ok(())
}

/// Adds an XML declaration to the output.
#[verifier::rlimit(100)]
fn write_declaration(out: &mut String, declaration: &DeclarationNode<'_>) -> (r: std::io::Result<
    (),
>)
    ensures
        match r {
            Ok(_) => declaration_escapable(declaration@) && final(out)@ == old(out)@
                + declaration_rendered(declaration@),
            Err(_) => !declaration_escapable(declaration@),
        },
{
    out.append("<?xml version=\"");
    write_escaped(out, declaration.version().text())?;
    out.append("\"");
    let ghost head = out@;
    match declaration.encoding() {
        Some(encoding) => {
            out.append(" encoding=\"");
            write_escaped(out, encoding.text())?;
            out.append("\"");
            proof {
                assert(out@ =~= head + (" encoding=\""@ + escaped(encoding@.text) + "\""@));
            }
        },
        None => {},
    }
    let ghost middle = out@;
    match declaration.standalone() {
        Some(standalone) => {
            out.append(" standalone=\"");
            out.append(if standalone { "true" } else { "false" });
            out.append("\"");
            proof {
                assert(out@ =~= middle + (" standalone=\""@ + (if standalone {
                    "true"@
                } else {
                    "false"@
                }) + "\""@));
            }
        },
        None => {},
    }
    out.append(" ?>\n");
    proof {
        assert(out@ =~= old(out)@ + declaration_rendered(declaration@));
    }
    Ok(())
}

/// Adds the attributes of a tag to the output.
#[verifier::rlimit(100)]
fn write_attributes(out: &mut String, attributes: &[NodeAttribute<'_>], Ghost(all): Ghost<
    Seq<AttributeView>,
>) -> (r: std::io::Result<()>)
    requires
        attributes@.len() == all.len(),
        forall|j: int| 0 <= j < attributes@.len() ==> (#[trigger] attributes@[j])@ == all[j],
    ensures
        match r {
            Ok(_) => attributes_escapable(all, 0) && final(out)@ == old(out)@ + attributes_rendered(
                all,
                0,
            ),
            Err(_) => !attributes_escapable(all, 0),
        },
{
    let mut i: usize = 0;
    while i < attributes.len()
        invariant
            i <= attributes@.len(),
            attributes@.len() == all.len(),
            forall|j: int| 0 <= j < attributes@.len() ==> (#[trigger] attributes@[j])@ == all[j],
            attributes_escapable(all, 0) == attributes_escapable(all, i as int),
            out@ + attributes_rendered(all, i as int) == old(out)@ + attributes_rendered(all, 0),
        decreases attributes@.len() - i,
    {
        let ghost before = out@;
        let attribute = &attributes[i];
        let name = attribute.name().qualified();
        out.append(" ");
        match write_escaped(out, name.as_str()) {
            Ok(_) => {},
            Err(e) => {
                return Err(e);
            },
        }
        out.append("=\"");
        match write_escaped(out, attribute.value().text()) {
            Ok(_) => {},
            Err(e) => {
                return Err(e);
            },
        }
        out.append("\"");
        proof {
            assert(out@ =~= before + attribute_rendered(all[i as int]));
            assert(before + attributes_rendered(all, i as int) =~= out@ + attributes_rendered(
                all,
                i + 1,
            ));
        }
        i += 1;
    }
    proof {
        assert(out@ =~= old(out)@ + attributes_rendered(all, 0));
    }
    Ok(())
}

/// Puts the children of a tag on the stack, the last first, so that the
/// first is written next.
#[verifier::rlimit(100)]
fn push_children<'a, 'src>(
    stack: &mut Vec<(NodeTask<'a, 'src>, usize)>,
    children: &'a [Node<'src>],
    depth: usize,
    Ghost(tab): Ghost<Seq<char>>,
)
    ensures
        tasks_rendered(stack_view(final(stack)@), tab) == children_rendered(
            nodes_view(children@),
            0,
            tab,
            depth,
        ) + tasks_rendered(stack_view(old(stack)@), tab),
        tasks_escapable(stack_view(final(stack)@)) == (children_escapable(
            nodes_view(children@),
            0,
        ) && tasks_escapable(stack_view(old(stack)@))),
        tasks_weight(stack_view(final(stack)@)) == children_weight(nodes_view(children@), 0)
            + tasks_weight(stack_view(old(stack)@)),
{
    let ghost kids = nodes_view(children@);
    let ghost rest = stack_view(stack@);
    let mut i: usize = children.len();
    proof {
        assert(children_rendered(kids, i as int, tab, depth) + tasks_rendered(rest, tab)
            =~= tasks_rendered(rest, tab));
    }
    while i > 0
        invariant
            i <= children@.len(),
            kids == nodes_view(children@),
            rest == stack_view(old(stack)@),
            tasks_rendered(stack_view(stack@), tab) == children_rendered(kids, i as int, tab, depth)
                + tasks_rendered(rest, tab),
            tasks_escapable(stack_view(stack@)) == (children_escapable(kids, i as int)
                && tasks_escapable(rest)),
            tasks_weight(stack_view(stack@)) == children_weight(kids, i as int) + tasks_weight(
                rest,
            ),
        decreases i,
    {
        i -= 1;
        let ghost below = stack_view(stack@);
        stack.push((NodeTask::OpenKind(&children[i]), depth));
        proof {
            assert(stack_view(stack@) =~= below.push((TaskView::OpenKind(kids[i as int]), depth)));
            assert(stack_view(stack@).drop_last() =~= below);
            assert(tasks_rendered(stack_view(stack@), tab) =~= children_rendered(
                kids,
                i as int,
                tab,
                depth,
            ) + tasks_rendered(rest, tab));
        }
    }
}

/// Writes the start of the line that opens a tag: `<name` and the
/// attributes.
fn write_open(out: &mut String, node: &TagNode<'_>, tab: &str, depth: usize) -> (r:
    std::io::Result<()>)
    ensures
        match r {
            Ok(_) => {
                &&& escapable(node@.name.qualified())
                &&& attributes_escapable(node@.attributes, 0)
                &&& final(out)@ == old(out)@ + open_rendered(node@, tab@, depth)
            },
            Err(_) => !(escapable(node@.name.qualified()) && attributes_escapable(
                node@.attributes,
                0,
            )),
        },
{
    write_indent(out, tab, depth);
    out.append("<");
    let written = node.name().qualified();
    write_escaped(out, written.as_str())?;
    write_attributes(out, node.attributes(), Ghost(node@.attributes))?;
    proof {
        assert(out@ =~= old(out)@ + open_rendered(node@, tab@, depth));
    }
    Ok(())
}

/// What follows the start of the line that opens a tag: the end of that
/// line, the children and the line that closes the tag.
pub open spec fn tag_rest_rendered(tag: TagView, tab: Seq<char>, depth: usize) -> Seq<char> {
    if tag.children.len() == 0 {
        " />\n"@
    } else {
        ">\n"@ + children_rendered(tag.children, 0, tab, deeper(depth)) + close_rendered(
            tag.name,
            tab,
            depth,
        )
    }
}

/// A tag is written as the start of its first line and what follows it.
proof fn lemma_tag_rendered_parts(tag: TagView, tab: Seq<char>, depth: usize)
    ensures
        tag_rendered(tag, tab, depth) == open_rendered(tag, tab, depth) + tag_rest_rendered(
            tag,
            tab,
            depth,
        ),
{
    if tag.children.len() > 0 {
        assert(tag_rendered(tag, tab, depth) =~= open_rendered(tag, tab, depth)
            + tag_rest_rendered(tag, tab, depth));
    }
}

/// Ends the line that opens a tag, and puts on the stack what is still to
/// be written of the tag: its children and the line that closes it.
#[verifier::rlimit(100)]
fn open_children<'a, 'src>(
    out: &mut String,
    stack: &mut Vec<(NodeTask<'a, 'src>, usize)>,
    node: &'a TagNode<'src>,
    depth: usize,
    Ghost(tab): Ghost<Seq<char>>,
)
    ensures
        final(out)@ + tasks_rendered(stack_view(final(stack)@), tab) == old(out)@
            + tag_rest_rendered(node@, tab, depth) + tasks_rendered(stack_view(old(stack)@), tab),
        tasks_escapable(stack_view(final(stack)@)) == ((node@.children.len() == 0 || (escapable(
            node@.name.qualified(),
        ) && children_escapable(node@.children, 0))) && tasks_escapable(stack_view(old(stack)@))),
        tasks_weight(stack_view(final(stack)@)) < tag_weight(node@) + tasks_weight(
            stack_view(old(stack)@),
        ),
{
    let ghost rest = stack_view(stack@);
    let children = node.children();
    proof {
        assert(nodes_view(children@) =~= node@.children);
    }
    if children.len() == 0 {
        out.append(" />\n");
    } else {
        out.append(">\n");
        let inner = if depth < usize::MAX {
            depth + 1
        } else {
            depth
        };
        stack.push((NodeTask::Close(node.name()), depth));
        proof {
            assert(stack_view(stack@) =~= rest.push((TaskView::Close(node@.name), depth)));
            assert(stack_view(stack@).drop_last() =~= rest);
        }
        let ghost closing = stack_view(stack@);
        push_children(stack, children, inner, Ghost(tab));
        proof {
            assert(tasks_rendered(closing, tab) =~= close_rendered(node@.name, tab, depth)
                + tasks_rendered(rest, tab));
            assert(out@ + tasks_rendered(stack_view(stack@), tab) =~= old(out)@
                + tag_rest_rendered(node@, tab, depth) + tasks_rendered(rest, tab));
        }
    }
}

/// Writes the line that opens a tag, and puts on the stack what is still
/// to be written of it: its children and the line that closes it.
#[verifier::rlimit(100)]
fn open_tag<'a, 'src>(
    out: &mut String,
    stack: &mut Vec<(NodeTask<'a, 'src>, usize)>,
    node: &'a TagNode<'src>,
    tab: &str,
    depth: usize,
) -> (r: std::io::Result<()>)
    ensures
        match r {
            Ok(_) => {
                &&& final(out)@ + tasks_rendered(stack_view(final(stack)@), tab@) == old(out)@
                    + tag_rendered(node@, tab@, depth) + tasks_rendered(
                    stack_view(old(stack)@),
                    tab@,
                )
                &&& tasks_escapable(stack_view(final(stack)@)) == (tag_escapable(node@)
                    && tasks_escapable(stack_view(old(stack)@)))
                &&& tasks_weight(stack_view(final(stack)@)) < tag_weight(node@) + tasks_weight(
                    stack_view(old(stack)@),
                )
            },
            Err(_) => !tag_escapable(node@),
        },
{
    write_open(out, node, tab, depth)?;
    let ghost opened = out@;
    open_children(out, stack, node, depth, Ghost(tab@));
    proof {
        lemma_tag_rendered_parts(node@, tab@, depth);
        let rest = tasks_rendered(stack_view(old(stack)@), tab@);
        assert(out@ + tasks_rendered(stack_view(stack@), tab@) =~= old(out)@ + (open_rendered(
            node@,
            tab@,
            depth,
        ) + tag_rest_rendered(node@, tab@, depth)) + rest);
    }
    Ok(())
}

/// Takes the next task from the stack and does it.
#[verifier::rlimit(100)]
fn run_task<'a, 'src>(
    out: &mut String,
    stack: &mut Vec<(NodeTask<'a, 'src>, usize)>,
    tab: &str,
) -> (r: std::io::Result<()>)
    requires
        old(stack)@.len() > 0,
    ensures
        match r {
            Ok(_) => {
                &&& final(out)@ + tasks_rendered(stack_view(final(stack)@), tab@) == old(out)@
                    + tasks_rendered(stack_view(old(stack)@), tab@)
                &&& tasks_escapable(stack_view(final(stack)@)) == tasks_escapable(
                    stack_view(old(stack)@),
                )
                &&& tasks_weight(stack_view(final(stack)@)) < tasks_weight(
                    stack_view(old(stack)@),
                )
            },
            Err(_) => !tasks_escapable(stack_view(old(stack)@)),
        },
{
    let ghost tasks = stack_view(stack@);
    let (task, depth) = stack.pop().unwrap();
    let ghost rest = stack_view(stack@);
    proof {
        assert(rest =~= tasks.drop_last());
        assert(tasks.last() == (task@, depth));
    }
    match task {
        NodeTask::Close(name) => {
            write_indent(out, tab, depth);
            out.append("</");
            let written = name.qualified();
            write_escaped(out, written.as_str())?;
            out.append(">\n");
            proof {
                assert(out@ =~= old(out)@ + close_rendered(name@, tab@, depth));
                assert(out@ + tasks_rendered(rest, tab@) =~= old(out)@ + tasks_rendered(
                    tasks,
                    tab@,
                ));
            }
            Ok(())
        },
        NodeTask::OpenKind(kind) => {
            match kind {
                Node::Child(node) => {
                    stack.push((NodeTask::OpenNode(node), depth));
                    proof {
                        assert(stack_view(stack@) =~= rest.push(
                            (TaskView::OpenNode(node@), depth),
                        ));
                        assert(stack_view(stack@).drop_last() =~= rest);
                    }
                    Ok(())
                },
                _ => {
                    write_node(out, kind, tab, depth)?;
                    proof {
                        assert(out@ + tasks_rendered(rest, tab@) =~= old(out)@ + tasks_rendered(
                            tasks,
                            tab@,
                        ));
                    }
                    Ok(())
                },
            }
        },
        NodeTask::OpenNode(node) => open_tag(out, stack, node, tab, depth),
    }
}

/// The document as indented XML text. `tab_char` indents each level; where
/// it is `None`, a tab character does.
///
/// The tags are written from a stack of what is still to do, so the depth
/// of the document is not the depth of any call.
///
/// # Errors
/// Where the entity encoder does not accept a name or a text of the
/// document.
#[verifier::rlimit(100)]
pub fn write_xml(document: &Document<'_>, tab_char: Option<&str>) -> (r: std::io::Result<String>)
    ensures
        match r {
            Ok(text) => document_escapable(document@) && text@ == document_rendered(
                document@,
                tab_text(tab_char),
            ),
            Err(_) => !document_escapable(document@),
        },
{
    let tab = match tab_char {
        Some(t) => t,
        None => "\t",
    };
    let mut out = String::new();
    match document.declaration() {
        Some(declaration) => {
            write_declaration(&mut out, declaration)?;
        },
        None => {},
    }
    let ghost declared = out@;
    let prolog = document.prolog();
    let epilog = document.epilog();
    proof {
        assert(nodes_view(prolog@) =~= document@.prolog);
        assert(nodes_view(epilog@) =~= document@.epilog);
    }
    write_leaves(&mut out, prolog, tab)?;
    let ghost head = out@;
    let mut stack: Vec<(NodeTask<'_, '_>, usize)> = Vec::new();
    stack.push((NodeTask::OpenNode(document.root()), 0));
    proof {
        assert(stack_view(stack@) =~= seq![(TaskView::OpenNode(document@.root), 0usize)]);
        assert(stack_view(stack@).drop_last() =~= Seq::empty());
        reveal_with_fuel(tasks_rendered, 2);
        reveal_with_fuel(tasks_escapable, 2);
        assert(tasks_rendered(stack_view(stack@), tab@) =~= tag_rendered(document@.root, tab@, 0));
    }
    while stack.len() > 0
        invariant
            tasks_escapable(stack_view(stack@)) == tag_escapable(document@.root),
            out@ + tasks_rendered(stack_view(stack@), tab@) == head + tag_rendered(
                document@.root,
                tab@,
                0,
            ),
        decreases tasks_weight(stack_view(stack@)),
    {
        match run_task(&mut out, &mut stack, tab) {
            Ok(_) => {},
            Err(e) => {
                return Err(e);
            },
        }
    }
    proof {
        assert(stack_view(stack@) =~= Seq::empty());
        assert(out@ =~= head + tag_rendered(document@.root, tab@, 0));
    }
    write_leaves(&mut out, epilog, tab)?;
    proof {
        assert(out@ =~= document_rendered(document@, tab_text(tab_char)));
    }
    Ok(out)
}

impl<'src> Document<'src> {
    /// Adds the document as indented XML text to `writer`, in UTF-8.
    ///
    /// # Errors
    /// Where the entity encoder does not accept a name or a text of the
    /// document; `writer` then stays as it is.
    pub fn to_xml_with_writer(&self, writer: &mut Vec<u8>, tab_char: Option<&str>) -> (r:
        std::io::Result<()>)
        ensures
            match r {
                Ok(_) => document_escapable(self@) && final(writer)@ == old(writer)@
                    + vstd::utf8::encode_utf8(document_rendered(self@, tab_text(tab_char))),
                Err(_) => !document_escapable(self@) && final(writer)@ == old(writer)@,
            },
    {
        let text = write_xml(self, tab_char)?;
        push_text(writer, text.as_str());
        Ok(())
    }

    /// The document as indented XML text. `tab_char` indents each level;
    /// where it is `None`, a tab character does.
    ///
    /// # Errors
    /// Where the entity encoder does not accept a name or a text of the
    /// document.
    pub fn to_xml(&self, tab_char: Option<&str>) -> (r: std::io::Result<String>)
        ensures
            match r {
                Ok(text) => document_escapable(self@) && text@ == document_rendered(
                    self@,
                    tab_text(tab_char),
                ),
                Err(_) => !document_escapable(self@),
            },
    {
        write_xml(self, tab_char)
    }
}

/// Adds the UTF-8 bytes of a text to a buffer.
fn push_text(writer: &mut Vec<u8>, text: &str)
    ensures
        final(writer)@ == old(writer)@ + text.spec_bytes(),
{
    writer.extend_from_slice(text.as_bytes());
    proof {
        assert(writer@ =~= old(writer)@ + text.spec_bytes());
    }
}

impl OwnedDocument {
    /// Adds the document as indented XML text to `writer`, in UTF-8.
    ///
    /// # Errors
    /// Where the entity encoder does not accept a name or a text of the
    /// document; `writer` then stays as it is.
    pub fn to_xml_with_writer(&self, writer: &mut Vec<u8>, tab_char: Option<&str>) -> (r:
        std::io::Result<()>)
        ensures
            match r {
                Ok(_) => document_escapable(self@) && final(writer)@ == old(writer)@
                    + vstd::utf8::encode_utf8(document_rendered(self@, tab_text(tab_char))),
                Err(_) => !document_escapable(self@) && final(writer)@ == old(writer)@,
            },
    {
        let text = self.to_xml(tab_char)?;
        push_text(writer, text.as_str());
        Ok(())
    }

    /// The document as indented XML text. `tab_char` indents each level;
    /// where it is `None`, a tab character does.
    ///
    /// # Errors
    /// Where the entity encoder does not accept a name or a text of the
    /// document.
    pub fn to_xml(&self, tab_char: Option<&str>) -> (r: std::io::Result<String>)
        ensures
            match r {
                Ok(text) => document_escapable(self@) && text@ == document_rendered(
                    self@,
                    tab_text(tab_char),
                ),
                Err(_) => !document_escapable(self@),
            },
    {
        let doc = self.borrowed();
        write_xml(&doc, tab_char)
    }
}

} // verus!
