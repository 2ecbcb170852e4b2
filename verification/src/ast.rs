//! Ren'Py statements, read from the pickled abstract syntax tree of a
//! compiled script.
//!
//! A compiled script unpickles to a pair whose second item is the list of
//! statement nodes. Each node is itself a list whose second item is the
//! dictionary of the node's attributes; [`parse_statement`] tells the kind of
//! statement from which attributes are present.
use vstd::prelude::*;
use crate::pickle::{self, copy_entries, dict_lookup_str, dict_position, PickleTerm, PickleValue};

verus! {

#[derive(Debug)]
pub struct Define {
    pub varname: String,
    pub store: String,
}

#[derive(Debug)]
pub struct Default {
    pub varname: String,
    pub store: String,
}

#[derive(Debug)]
pub struct Say {
    pub what: String,
}

#[derive(Debug)]
pub struct Init {
    pub priority: i64,
    pub block: Vec<RenpyStatement>,
}

#[derive(Debug)]
pub struct Label {
    pub name: String,
}

#[derive(Debug)]
pub struct Python {
    pub source: String,
}

#[derive(Debug)]
pub struct Image {
    pub imgname: Vec<String>,
}

#[derive(Debug)]
pub struct Transform {
    pub varname: String,
}

#[derive(Debug)]
pub struct Show {
    pub imspec: PickleValue,
}

#[derive(Debug)]
pub struct Scene {
    pub imspec: Option<PickleValue>,
}

#[derive(Debug)]
pub struct Hide {
    pub imspec: PickleValue,
}

#[derive(Debug)]
pub struct Pass;

#[derive(Debug)]
pub struct Return;

#[derive(Debug)]
pub struct If;

#[derive(Debug)]
pub struct While {
    pub condition: String,
}

#[derive(Debug)]
pub struct Jump {
    pub target: String,
}

#[derive(Debug)]
pub struct Call {
    pub label: String,
}

/// A statement of a Ren'Py script.
#[derive(Debug)]
pub enum RenpyStatement {
    Define(Define),
    Default(Default),
    Say(Say),
    Init(Init),
    Label(Label),
    Python(Python),
    Image(Image),
    Transform(Transform),
    Show(Show),
    Scene(Scene),
    Hide(Hide),
    Pass(Pass),
    Return(Return),
    If(If),
    While(While),
    Jump(Jump),
    Call(Call),
    /// A node of no kind recognised here, with its attribute dictionary.
    Unknown(Vec<(PickleValue, PickleValue)>),
}

/// Why a node is not a statement.
#[derive(Debug, Clone, Copy, PartialEq, Eq, Structural)]
pub enum StatementError {
    /// The node is not a list.
    NotAList,
    /// The node has fewer than two items.
    TooShort,
    /// The second item of the node is not a dictionary.
    NotADict,
}

impl StatementError {
    /// The error's message.
    pub fn message(&self) -> (m: &'static str)
        ensures
            m@ == statement_error_message(*self),
    {
        match self {
            StatementError::NotAList => "Node is not a list",
            StatementError::TooShort => "Node list too short",
            StatementError::NotADict => "Second element of node is not a dict",
        }
    }
}

/// The text of each error.
pub open spec fn statement_error_message(e: StatementError) -> Seq<char> {
    match e {
        StatementError::NotAList => "Node is not a list"@,
        StatementError::TooShort => "Node list too short"@,
        StatementError::NotADict => "Second element of node is not a dict"@,
    }
}

/// The mathematical model of a [`RenpyStatement`].
#[allow(inconsistent_fields)]
pub enum StatementTerm {
    Define { varname: Seq<char>, store: Seq<char> },
    Default { varname: Seq<char>, store: Seq<char> },
    Say { what: Seq<char> },
    Init { priority: i64, block: Seq<StatementTerm> },
    Label { name: Seq<char> },
    Python { source: Seq<char> },
    Image { imgname: Seq<Seq<char>> },
    Transform { varname: Seq<char> },
    Show { imspec: PickleTerm },
    Scene { imspec: Option<PickleTerm> },
    Hide { imspec: PickleTerm },
    Pass,
    Return,
    If,
    While { condition: Seq<char> },
    Jump { target: Seq<char> },
    Call { label: Seq<char> },
    Unknown { entries: Seq<(PickleTerm, PickleTerm)> },
}

/// The model of a statement.
pub open spec fn statement_term(s: RenpyStatement) -> StatementTerm
    decreases s,
{
    match s {
        RenpyStatement::Define(d) => StatementTerm::Define { varname: d.varname@, store: d.store@ },
        RenpyStatement::Default(d) => StatementTerm::Default { varname: d.varname@, store: d.store@ },
        RenpyStatement::Say(x) => StatementTerm::Say { what: x.what@ },
        RenpyStatement::Init(x) => StatementTerm::Init {
            priority: x.priority,
            block: statement_terms(x.block),
        },
        RenpyStatement::Label(x) => StatementTerm::Label { name: x.name@ },
        RenpyStatement::Python(x) => StatementTerm::Python { source: x.source@ },
        RenpyStatement::Image(x) => StatementTerm::Image {
            imgname: Seq::new(x.imgname@.len(), |k: int| x.imgname@[k]@),
        },
        RenpyStatement::Transform(x) => StatementTerm::Transform { varname: x.varname@ },
        RenpyStatement::Show(x) => StatementTerm::Show { imspec: x.imspec@ },
        RenpyStatement::Scene(x) => StatementTerm::Scene {
            imspec: match x.imspec {
                Some(v) => Some(v@),
                None => None,
            },
        },
        RenpyStatement::Hide(x) => StatementTerm::Hide { imspec: x.imspec@ },
        RenpyStatement::Pass(_) => StatementTerm::Pass,
        RenpyStatement::Return(_) => StatementTerm::Return,
        RenpyStatement::If(_) => StatementTerm::If,
        RenpyStatement::While(x) => StatementTerm::While { condition: x.condition@ },
        RenpyStatement::Jump(x) => StatementTerm::Jump { target: x.target@ },
        RenpyStatement::Call(x) => StatementTerm::Call { label: x.label@ },
        RenpyStatement::Unknown(d) => StatementTerm::Unknown { entries: pickle::pair_terms_of(d) },
    }
}

/// The models of a list of statements.
pub open spec fn statement_terms(v: Vec<RenpyStatement>) -> Seq<StatementTerm>
    decreases v,
{
    proof {
        broadcast use vstd::std_specs::vec::group_vec_axioms;

    }
    Seq::new(
        v@.len(),
        |i: int|
            if 0 <= i < v@.len() {
                statement_term(v[i])
            } else {
                StatementTerm::Pass
            },
    )
}

impl View for RenpyStatement {
    type V = StatementTerm;

    open spec fn view(&self) -> StatementTerm {
        statement_term(*self)
    }
}

/// The models of a list of statements, one by one.
pub proof fn lemma_statement_terms(v: Vec<RenpyStatement>)
    ensures
        statement_terms(v).len() == v@.len(),
        forall|i: int| 0 <= i < v@.len() ==> #[trigger] statement_terms(v)[i] == v@[i]@,
{
}

/// The nodes of the block of an `init` node: the list stored under
/// `"block"`, or none where that is not a list.
pub open spec fn block_nodes(d: Seq<(PickleTerm, PickleTerm)>) -> Seq<PickleTerm> {
    match pickle::dict_get(d, "block"@) {
        Some(PickleTerm::List(nodes)) => nodes,
        _ => Seq::empty(),
    }
}

/// A string, or the empty string.
pub open spec fn str_or_empty(s: Option<Seq<char>>) -> Seq<char> {
    match s {
        Some(x) => x,
        None => Seq::empty(),
    }
}

/// The statement that a node's attribute dictionary `d` describes, where
/// `block` holds the statements of the node's block.
///
/// The kinds are tried in this order: `init` (a `priority` and a `block`),
/// `define` (a string `operator`), `default` (a string `varname`), `say` (a
/// string `what`), `label` (a string `name` and a `block`), `return` (an
/// `expression`), `image` (a `code` and a string `imgname`); any other node is
/// kept as it is.
pub open spec fn statement_of_dict(d: Seq<(PickleTerm, PickleTerm)>, block: Seq<StatementTerm>) -> StatementTerm {
    if pickle::dict_has(d, "priority"@) && pickle::dict_has(d, "block"@) {
        StatementTerm::Init {
            priority: match pickle::dict_get(d, "priority"@) {
                Some(PickleTerm::I64(i)) => i,
                _ => 0,
            },
            block,
        }
    } else if pickle::dict_get_str(d, "operator"@) is Some {
        StatementTerm::Define {
            varname: str_or_empty(pickle::dict_get_str(d, "varname"@)),
            store: str_or_empty(pickle::dict_get_str(d, "store"@)),
        }
    } else if pickle::dict_get_str(d, "varname"@) is Some {
        StatementTerm::Default {
            varname: pickle::dict_get_str(d, "varname"@).unwrap(),
            store: str_or_empty(pickle::dict_get_str(d, "store"@)),
        }
    } else if pickle::dict_get_str(d, "what"@) is Some {
        StatementTerm::Say { what: pickle::dict_get_str(d, "what"@).unwrap() }
    } else if pickle::dict_get_str(d, "name"@) is Some && pickle::dict_has(d, "block"@) {
        StatementTerm::Label { name: pickle::dict_get_str(d, "name"@).unwrap() }
    } else if pickle::dict_has(d, "expression"@) {
        StatementTerm::Return
    } else if pickle::dict_has(d, "code"@) && pickle::dict_get_str(d, "imgname"@) is Some {
        StatementTerm::Image { imgname: Seq::empty() }
    } else {
        StatementTerm::Unknown { entries: d }
    }
}

/// What a node parses to.
pub open spec fn parse_term(node: PickleTerm) -> Result<StatementTerm, StatementError>
    decreases node,
{
    match node {
        PickleTerm::List(items) => {
            if items.len() < 2 {
                Err(StatementError::TooShort)
            } else {
                match items[1] {
                    PickleTerm::Dict(d) => {
                        let block = match pickle::dict_index(d, "block"@) {
                            Some(j) => {
                                if 0 <= j < d.len() {
                                    match d[j].1 {
                                        PickleTerm::List(nodes) => {
                                            proof {
                                                assert(decreases_to!(items => items[1]));
                                                assert(decreases_to!(d => d[j]));
                                                assert(decreases_to!(node => nodes));
                                            }
                                            parse_block(nodes)
                                        },
                                        _ => Seq::empty(),
                                    }
                                } else {
                                    Seq::empty()
                                }
                            },
                            None => Seq::empty(),
                        };
                        Ok(statement_of_dict(d, block))
                    },
                    _ => Err(StatementError::NotADict),
                }
            }
        },
        _ => Err(StatementError::NotAList),
    }
}

/// What a block of nodes parses to: the statements of the nodes that parse,
/// in their order; the others are left out.
pub open spec fn parse_block(nodes: Seq<PickleTerm>) -> Seq<StatementTerm>
    decreases nodes,
{
    if nodes.len() == 0 {
        Seq::empty()
    } else {
        let rest = parse_block(nodes.subrange(0, nodes.len() - 1));
        match parse_term(nodes[nodes.len() - 1]) {
            Ok(s) => rest.push(s),
            Err(_) => rest,
        }
    }
}

/// The statement nodes of an unpickled script: the list that is the second
/// item of the top-level list or tuple.
pub open spec fn statements_of(val: PickleTerm) -> Option<Seq<PickleTerm>> {
    match val {
        PickleTerm::List(items) => second_list(items),
        PickleTerm::Tuple(items) => second_list(items),
        _ => None,
    }
}

/// The second item, where there is one and it is a list.
pub open spec fn second_list(items: Seq<PickleTerm>) -> Option<Seq<PickleTerm>> {
    if items.len() >= 2 {
        match items[1] {
            PickleTerm::List(s) => Some(s),
            _ => None,
        }
    } else {
        None
    }
}

/// Whether a node has the shape of a statement: a list of at least two items
/// whose second item is a dictionary.
pub open spec fn is_statement_node(node: PickleTerm) -> bool {
    &&& node matches PickleTerm::List(items)
    &&& items.len() >= 2
    &&& items[1] matches PickleTerm::Dict(_)
}

/// A node parses exactly when it has the shape of a statement; its statement
/// is then what its attribute dictionary describes, with the block found under
/// `"block"`.
pub proof fn lemma_parse_term_shape(node: PickleTerm)
    ensures
        parse_term(node) is Ok <==> is_statement_node(node),
        is_statement_node(node) ==> ({
            let d = node->List_0[1]->Dict_0;
            parse_term(node) == Ok::<StatementTerm, StatementError>(
                statement_of_dict(d, parse_block(block_nodes(d))),
            )
        }),
{
    if is_statement_node(node) {
        let d = node->List_0[1]->Dict_0;
        pickle::lemma_dict_index(d, "block"@);
    }
}

/// The string stored under `key`, or the empty string.
pub open spec fn stored_or_empty(d: Seq<(PickleTerm, PickleTerm)>, key: Seq<char>) -> Seq<char> {
    match pickle::dict_get_str(d, key) {
        Some(s) => s,
        None => Seq::empty(),
    }
}

/// Whether the attributes mark an `init` node: a `priority` and a `block`.
pub open spec fn has_init_keys(d: Seq<(PickleTerm, PickleTerm)>) -> bool {
    pickle::dict_has(d, "priority"@) && pickle::dict_has(d, "block"@)
}

/// A node with a `priority` and a `block` is an `init` statement with that
/// priority where it is a short integer, 0 otherwise.
pub proof fn lemma_init_node(items: Seq<PickleTerm>, d: Seq<(PickleTerm, PickleTerm)>)
    requires
        items.len() >= 2,
        items[1] == PickleTerm::Dict(d),
        pickle::dict_has(d, "priority"@),
        pickle::dict_has(d, "block"@),
    ensures
        parse_term(PickleTerm::List(items)) matches Ok(StatementTerm::Init { priority, block }) && priority == match pickle::dict_get(d, "priority"@) {
            Some(PickleTerm::I64(i)) => i,
            _ => 0i64,
        } && block == match pickle::dict_get(d, "block"@) {
            Some(PickleTerm::List(nodes)) => parse_block(nodes),
            _ => Seq::<StatementTerm>::empty(),
        },
{
    lemma_parse_term_shape(PickleTerm::List(items));
}

/// A node with a string `operator` (and no `priority` with `block`) is a
/// `define` of the strings under `varname` and `store`, each empty where
/// absent.
pub proof fn lemma_define_node(items: Seq<PickleTerm>, d: Seq<(PickleTerm, PickleTerm)>)
    requires
        items.len() >= 2,
        items[1] == PickleTerm::Dict(d),
        !has_init_keys(d),
        pickle::dict_get_str(d, "operator"@) is Some,
    ensures
        parse_term(PickleTerm::List(items)) == Ok::<StatementTerm, StatementError>(
            StatementTerm::Define {
                varname: stored_or_empty(d, "varname"@),
                store: stored_or_empty(d, "store"@),
            },
        ),
{
    lemma_parse_term_shape(PickleTerm::List(items));
}

/// A node with a string `varname` and no string `operator` (and no
/// `priority` with `block`) is a `default` of that variable, with the string
/// under `store`, or the empty store.
pub proof fn lemma_default_node(items: Seq<PickleTerm>, d: Seq<(PickleTerm, PickleTerm)>, var: Seq<char>)
    requires
        items.len() >= 2,
        items[1] == PickleTerm::Dict(d),
        !has_init_keys(d),
        pickle::dict_get_str(d, "operator"@) is None,
        pickle::dict_get_str(d, "varname"@) == Some(var),
    ensures
        parse_term(PickleTerm::List(items)) == Ok::<StatementTerm, StatementError>(
            StatementTerm::Default { varname: var, store: stored_or_empty(d, "store"@) },
        ),
{
    lemma_parse_term_shape(PickleTerm::List(items));
}

/// A node with a string `what` (and none of the keys above) is a `say` of
/// that string.
pub proof fn lemma_say_node(items: Seq<PickleTerm>, d: Seq<(PickleTerm, PickleTerm)>, what: Seq<char>)
    requires
        items.len() >= 2,
        items[1] == PickleTerm::Dict(d),
        !has_init_keys(d),
        pickle::dict_get_str(d, "operator"@) is None,
        pickle::dict_get_str(d, "varname"@) is None,
        pickle::dict_get_str(d, "what"@) == Some(what),
    ensures
        parse_term(PickleTerm::List(items)) == Ok::<StatementTerm, StatementError>(StatementTerm::Say { what }),
{
    lemma_parse_term_shape(PickleTerm::List(items));
}

/// A node with a string `name` and a `block` (and none of the keys above)
/// is a `label` of that name.
pub proof fn lemma_label_node(items: Seq<PickleTerm>, d: Seq<(PickleTerm, PickleTerm)>, name: Seq<char>)
    requires
        items.len() >= 2,
        items[1] == PickleTerm::Dict(d),
        !has_init_keys(d),
        pickle::dict_get_str(d, "operator"@) is None,
        pickle::dict_get_str(d, "varname"@) is None,
        pickle::dict_get_str(d, "what"@) is None,
        pickle::dict_get_str(d, "name"@) == Some(name),
        pickle::dict_has(d, "block"@),
    ensures
        parse_term(PickleTerm::List(items)) == Ok::<StatementTerm, StatementError>(StatementTerm::Label { name }),
{
    lemma_parse_term_shape(PickleTerm::List(items));
}

/// Whether none of the keys that make an `init`, `define`, `default`, `say`
/// or `label` node is there.
pub open spec fn no_earlier_kind(d: Seq<(PickleTerm, PickleTerm)>) -> bool {
    &&& !has_init_keys(d)
    &&& pickle::dict_get_str(d, "operator"@) is None
    &&& pickle::dict_get_str(d, "varname"@) is None
    &&& pickle::dict_get_str(d, "what"@) is None
    &&& !(pickle::dict_get_str(d, "name"@) is Some && pickle::dict_has(d, "block"@))
}

/// A node with an `expression` (and none of the keys above) is a `return`;
/// else one with a `code` and a string `imgname` is an `image` with no name
/// parts; any other node is kept with its attribute dictionary as it is.
pub proof fn lemma_remaining_nodes(items: Seq<PickleTerm>, d: Seq<(PickleTerm, PickleTerm)>)
    requires
        items.len() >= 2,
        items[1] == PickleTerm::Dict(d),
        no_earlier_kind(d),
    ensures
        pickle::dict_has(d, "expression"@) ==> parse_term(PickleTerm::List(items)) == Ok::<StatementTerm, StatementError>(StatementTerm::Return),
        !pickle::dict_has(d, "expression"@) && pickle::dict_has(d, "code"@) && pickle::dict_get_str(d, "imgname"@) is Some
            ==> parse_term(PickleTerm::List(items)) == Ok::<StatementTerm, StatementError>(StatementTerm::Image { imgname: Seq::empty() }),
        !pickle::dict_has(d, "expression"@) && !(pickle::dict_has(d, "code"@) && pickle::dict_get_str(d, "imgname"@) is Some)
            ==> parse_term(PickleTerm::List(items)) == Ok::<StatementTerm, StatementError>(StatementTerm::Unknown { entries: d }),
{
    lemma_parse_term_shape(PickleTerm::List(items));
}

/// Which error a node that is not a statement gives: one that is not a list
/// is not a list; a list of fewer than two items is too short; a longer list
/// whose second item is not a dictionary has no dictionary.
pub proof fn lemma_node_errors(node: PickleTerm)
    ensures
        !(node is List) ==> parse_term(node) == Err::<StatementTerm, StatementError>(StatementError::NotAList),
        node is List && node->List_0.len() < 2 ==> parse_term(node) == Err::<StatementTerm, StatementError>(
            StatementError::TooShort,
        ),
        node is List && node->List_0.len() >= 2 && !(node->List_0[1] is Dict) ==> parse_term(node)
            == Err::<StatementTerm, StatementError>(StatementError::NotADict),
{
}

/// The statement nodes of a script are the second item of its top-level
/// list or tuple, where that item is a list; there are none otherwise.
pub proof fn lemma_statements_of(items: Seq<PickleTerm>, v: PickleTerm)
    ensures
        items.len() >= 2 && items[1] is List ==> statements_of(PickleTerm::List(items)) == Some(items[1]->List_0)
            && statements_of(PickleTerm::Tuple(items)) == Some(items[1]->List_0),
        !(items.len() >= 2 && items[1] is List) ==> statements_of(PickleTerm::List(items)) is None
            && statements_of(PickleTerm::Tuple(items)) is None,
        !(v is List) && !(v is Tuple) ==> statements_of(v) is None,
{
}

/// The number of nodes that have the shape of a statement, in a block.
pub open spec fn statement_node_count(nodes: Seq<PickleTerm>) -> nat
    decreases nodes.len(),
{
    if nodes.len() == 0 {
        0
    } else {
        statement_node_count(nodes.drop_last()) + if is_statement_node(nodes.last()) {
            1nat
        } else {
            0nat
        }
    }
}

/// A block keeps one statement for each node that has the shape of a
/// statement, and no other.
pub proof fn lemma_block_keeps_statement_nodes(nodes: Seq<PickleTerm>)
    ensures
        parse_block(nodes).len() == statement_node_count(nodes),
    decreases nodes.len(),
{
    if nodes.len() > 0 {
        assert(nodes.subrange(0, nodes.len() - 1) =~= nodes.drop_last());
        lemma_block_keeps_statement_nodes(nodes.drop_last());
        lemma_parse_term_shape(nodes.last());
    }
}

/// Finds the list of statement nodes in an unpickled script.
pub fn extract_statements(val: &PickleValue) -> (r: Option<&Vec<PickleValue>>)
    ensures
        match r {
            Some(stmts) => statements_of(val@) == Some(pickle::terms_of(*stmts)),
            None => statements_of(val@) is None,
        },
{
    let items = match val {
        PickleValue::List(list) => list,
        PickleValue::Tuple(list) => list,
        _ => return None,
    };
    proof {
        pickle::lemma_terms_of(*items);
    }
    if items.len() >= 2 {
        match &items[1] {
            PickleValue::List(stmts) => Some(stmts),
            _ => None,
        }
    } else {
        None
    }
}

/// A copy of the string stored under `key`, or the empty string where
/// there is none.
fn lookup_str_or_empty(dict: &Vec<(PickleValue, PickleValue)>, key: &str) -> (r: String)
    ensures
        r@ == str_or_empty(pickle::dict_get_str(pickle::pair_terms_of(*dict), key@)),
{
    match dict_lookup_str(dict, key) {
        Some(s) => s,
        None => String::new(),
    }
}

/// Parses the statements of a block, leaving out the nodes that are not
/// statements.
fn parse_block_nodes(nodes: &Vec<PickleValue>, Ghost(outer): Ghost<PickleValue>) -> (r: Vec<RenpyStatement>)
    requires
        forall|k: int| 0 <= k < nodes@.len() ==> decreases_to!(outer => #[trigger] nodes@[k]),
    ensures
        statement_terms(r) == parse_block(pickle::terms_of(*nodes)),
    decreases outer, 0nat,
{
    let ghost terms = pickle::terms_of(*nodes);
    proof {
        pickle::lemma_terms_of(*nodes);
    }
    let mut block: Vec<RenpyStatement> = Vec::new();
    let mut k: usize = 0;
    while k < nodes.len()
        invariant
            k <= nodes@.len(),
            terms == pickle::terms_of(*nodes),
            terms.len() == nodes@.len(),
            forall|i: int| 0 <= i < nodes@.len() ==> #[trigger] terms[i] == nodes@[i]@,
            forall|i: int| 0 <= i < nodes@.len() ==> decreases_to!(outer => #[trigger] nodes@[i]),
            statement_terms(block) == parse_block(terms.subrange(0, k as int)),
        decreases nodes@.len() - k,
    {
        let ghost before = statement_terms(block);
        assert(terms.subrange(0, k + 1).subrange(0, k as int) =~= terms.subrange(0, k as int));
        assert(terms.subrange(0, k + 1)[k as int] == nodes@[k as int]@);
        match parse_statement(&nodes[k]) {
            Ok(stmt) => {
                block.push(stmt);
                proof {
                    lemma_statement_terms(block);
                    assert(statement_terms(block) =~= before.push(stmt@));
                }
            },
            Err(_) => {},
        }
        k = k + 1;
    }
    assert(terms.subrange(0, k as int) =~= terms);
    block
}

/// Reads one statement node.
///
/// A node is a list whose second item is the dictionary of its attributes;
/// a node of another shape is an error. Which statement the attributes make
/// is `statement_of_dict`; within an `init` block the nodes that are not
/// statements are left out.
pub fn parse_statement(val: &PickleValue) -> (r: Result<RenpyStatement, StatementError>)
    ensures
        match r {
            Ok(s) => parse_term(val@) == Ok::<StatementTerm, StatementError>(s@),
            Err(e) => parse_term(val@) == Err::<StatementTerm, StatementError>(e),
        },
    decreases val, 1nat,
{
    let list = match val {
        PickleValue::List(list) => list,
        _ => return Err(StatementError::NotAList),
    };
    if list.len() < 2 {
        return Err(StatementError::TooShort);
    }
    proof {
        pickle::lemma_terms_of(*list);
    }
    let dict = match &list[1] {
        PickleValue::Dict(d) => d,
        _ => return Err(StatementError::NotADict),
    };
    let ghost d = pickle::pair_terms_of(*dict);
    proof {
        pickle::lemma_pair_terms_of(*dict);
        assert(pickle::terms_of(*list)[1] == PickleTerm::Dict(d));
    }
    let priority_pos = dict_position(dict, "priority");
    let block_pos = dict_position(dict, "block");
    if let Some(pi) = priority_pos {
        if let Some(bi) = block_pos {
            proof {
                pickle::lemma_dict_index(d, "priority"@);
                pickle::lemma_dict_index(d, "block"@);
            }
            let block = match &dict[bi].1 {
                PickleValue::List(nodes) => {
                    proof {
                        broadcast use vstd::std_specs::vec::group_vec_axioms;

                        assert(decreases_to!(*list => list[1]));
                        assert(decreases_to!(*dict => dict[bi as int]));
                        assert forall|k: int| 0 <= k < nodes@.len() implies decreases_to!(*val => #[trigger] nodes@[k]) by {
                            assert(decreases_to!(*nodes => nodes[k]));
                        }
                        pickle::lemma_terms_of(*nodes);
                    }
                    parse_block_nodes(nodes, Ghost(*val))
                },
                _ => Vec::new(),
            };
            let priority: i64 = match &dict[pi].1 {
                PickleValue::I64(i) => *i,
                _ => 0,
            };
            let r = RenpyStatement::Init(Init { priority, block });
            proof {
                lemma_statement_terms(block);
                assert(statement_terms(block) =~= match pickle::dict_index(d, "block"@) {
                    Some(j) => match d[j].1 {
                        PickleTerm::List(nodes) => parse_block(nodes),
                        _ => Seq::empty(),
                    },
                    None => Seq::empty(),
                });
            }
            return Ok(r);
        }
    }
    proof {
        pickle::lemma_dict_index(d, "priority"@);
        pickle::lemma_dict_index(d, "block"@);
    }
    if let Some(_) = dict_lookup_str(dict, "operator") {
        let varname = lookup_str_or_empty(dict, "varname");
        let store = lookup_str_or_empty(dict, "store");
        return Ok(RenpyStatement::Define(Define { varname, store }));
    }
    if let Some(var) = dict_lookup_str(dict, "varname") {
        let store = lookup_str_or_empty(dict, "store");
        return Ok(RenpyStatement::Default(Default { varname: var, store }));
    }
    if let Some(what) = dict_lookup_str(dict, "what") {
        return Ok(RenpyStatement::Say(Say { what }));
    }
    if let Some(name) = dict_lookup_str(dict, "name") {
        if block_pos.is_some() {
            return Ok(RenpyStatement::Label(Label { name }));
        }
    }
    if dict_position(dict, "expression").is_some() {
        return Ok(RenpyStatement::Return(Return));
    }
    if dict_position(dict, "code").is_some() {
        if dict_lookup_str(dict, "imgname").is_some() {
            let imgname: Vec<String> = Vec::new();
            assert(Seq::new(imgname@.len(), |k: int| imgname@[k]@) =~= Seq::<Seq<char>>::empty());
            let r = RenpyStatement::Image(Image { imgname });
            return Ok(r);
        }
    }
    Ok(RenpyStatement::Unknown(copy_entries(dict)))
}

} // verus!
