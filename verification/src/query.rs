//! The query expression model and its wire encoding.
//!
//! A query names a source table and an ordered list of operations: a
//! projection ([`Select`]) or a predicate ([`Filter`]) whose condition is a
//! tree of [`BoolNode`]s. An [`Insert`] carries a table name and one
//! pre-encoded row that this layer does not interpret. All of them encode
//! through the composite codec: structures concatenate their fields in
//! declared order, tagged unions put a 4-byte discriminant before the
//! selected variant's payload, and variable-size arrays carry a 4-byte
//! length prefix bounded by a declared per-field maximum.
//!
//! The enum ordinals are part of the wire contract and must never be
//! renumbered.

use crate::codec::{dec_bool, dec_bytes, dec_str, dec_u32, enc_bool, enc_bytes, enc_str, enc_u32,
    lemma_bool_round_trip, lemma_bytes_round_trip, lemma_bytes_truncated, lemma_enc_u32_len,
    lemma_prefix_beyond, lemma_prefix_within, lemma_str_round_trip, lemma_str_truncated,
    lemma_u32_round_trip, spec_var_max, var_max, CodecError};
use crate::decoder::Decoder;
use crate::encoder::{write_bytes, write_str, write_u32};
use vstd::prelude::*;
use vstd::utf8::encode_utf8;

verus! {

/// The largest byte length of a query's source table name.
pub open spec fn spec_source_max() -> nat {
    64
}

/// An opaque comparison operand: raw bytes.
#[derive(Clone, Debug, PartialEq)]
pub struct BinaryValue {
    pub t: Vec<u8>,
}

/// One projected property name.
#[derive(Clone, Debug, PartialEq)]
pub struct ID {
    pub t: String,
}

/// The binary operators of the predicate tree. The wire ordinals are
/// `EQUAL = 0`, `LT = 1`, `GT = 2`, `OR = 3`, `AND = 4`.
#[allow(non_camel_case_types)]
#[derive(Clone, Copy, Debug, PartialEq, Eq, Structural)]
pub enum BinaryOperator {
    EQUAL,
    LT,
    GT,
    OR,
    AND,
}

/// The category of a predicate leaf or node. The wire ordinals are
/// `BOOL = 0`, `IDENT = 1`, `OP = 2`, `VALUE = 3`.
#[allow(non_camel_case_types)]
#[derive(Clone, Copy, Debug, PartialEq, Eq, Structural)]
pub enum BoolCategory {
    BOOL,
    IDENT,
    OP,
    VALUE,
}

/// The value carried by one predicate node: a literal, an identifier, a
/// binary operator, or an opaque comparison operand.
#[allow(non_camel_case_types)]
#[derive(Debug, PartialEq)]
pub enum BoolType {
    BOOL(bool),
    IDENT(String),
    OP(BinaryOperator),
    VALUE(BinaryValue),
}

/// One node of the boolean predicate tree. A child list holds zero or one
/// node; if the value is the binary-operator kind, exactly one left and one
/// right child must be present, and for all other kinds zero.
#[derive(Debug, PartialEq)]
pub struct BoolNode {
    pub value: BoolType,
    pub left: Vec<BoolNode>,
    pub right: Vec<BoolNode>,
}

/// A boolean predicate: the root of its tree.
#[derive(Debug, PartialEq)]
pub struct BooleanExpr {
    pub root: BoolNode,
}

/// A projection: the ordered property names to keep.
#[derive(Clone, Debug, PartialEq)]
pub struct Select {
    pub props: Vec<ID>,
}

/// A predicate operation over the source rows.
#[derive(Debug, PartialEq)]
pub struct Filter {
    pub expression: BooleanExpr,
}

/// One row to insert: a table name and the pre-encoded row, opaque to this
/// layer.
#[derive(Clone, Debug, PartialEq)]
pub struct Insert {
    pub table: String,
    pub data: Vec<u8>,
}

/// The kind of one query operation. The wire ordinals are `SELECT = 0`,
/// `FILTER = 1`.
#[allow(non_camel_case_types)]
#[derive(Clone, Copy, Debug, PartialEq, Eq, Structural)]
pub enum OpType {
    SELECT,
    FILTER,
}

/// One query operation.
#[allow(non_camel_case_types)]
#[derive(Debug, PartialEq)]
pub enum Op {
    SELECT(Select),
    FILTER(Filter),
}

/// A query: a source table of at most 64 bytes and an ordered list of
/// operations. An empty operation list is legal and denotes the identity
/// over the source table — no projection and no filter; the host executes
/// it as such.
#[derive(Debug, PartialEq)]
pub struct Query {
    pub source: String,
    pub operations: Vec<Op>,
}

/// Mathematical model of a [`BoolType`].
#[allow(non_camel_case_types)]
pub enum BoolTypeV {
    BOOL(bool),
    IDENT(Seq<char>),
    OP(BinaryOperator),
    VALUE(Seq<u8>),
}

/// Mathematical model of a [`BoolNode`].
pub struct BoolNodeV {
    pub value: BoolTypeV,
    pub left: Seq<BoolNodeV>,
    pub right: Seq<BoolNodeV>,
}

/// Mathematical model of an [`Insert`].
pub struct InsertV {
    pub table: Seq<char>,
    pub data: Seq<u8>,
}

/// Mathematical model of an [`Op`].
#[allow(non_camel_case_types)]
pub enum OpV {
    SELECT(Seq<Seq<char>>),
    FILTER(BoolNodeV),
}

/// Mathematical model of a [`Query`].
pub struct QueryV {
    pub source: Seq<char>,
    pub operations: Seq<OpV>,
}

impl View for BinaryValue {
    type V = Seq<u8>;

    open spec fn view(&self) -> Seq<u8> {
        self.t@
    }
}

impl View for ID {
    type V = Seq<char>;

    open spec fn view(&self) -> Seq<char> {
        self.t@
    }
}

impl View for BoolType {
    type V = BoolTypeV;

    open spec fn view(&self) -> BoolTypeV {
        match self {
            BoolType::BOOL(b) => BoolTypeV::BOOL(*b),
            BoolType::IDENT(s) => BoolTypeV::IDENT(s@),
            BoolType::OP(o) => BoolTypeV::OP(*o),
            BoolType::VALUE(v) => BoolTypeV::VALUE(v.t@),
        }
    }
}

/// The model of one tree node.
pub open spec fn node_view(n: BoolNode) -> BoolNodeV
    decreases n,
{
    BoolNodeV { value: n.value@, left: nodes_view(n.left@), right: nodes_view(n.right@) }
}

/// The model of a list of tree nodes.
pub open spec fn nodes_view(s: Seq<BoolNode>) -> Seq<BoolNodeV>
    decreases s,
{
    if s.len() == 0 {
        Seq::empty()
    } else {
        seq![node_view(s[0])] + nodes_view(s.skip(1))
    }
}

/// A node list models element by element.
pub proof fn lemma_nodes_view(s: Seq<BoolNode>)
    ensures
        nodes_view(s).len() == s.len(),
        forall|i: int| 0 <= i < s.len() ==> nodes_view(s)[i] == node_view(s[i]),
    decreases s,
{
    if s.len() > 0 {
        lemma_nodes_view(s.skip(1));
    }
}

impl View for BoolNode {
    type V = BoolNodeV;

    open spec fn view(&self) -> BoolNodeV {
        node_view(*self)
    }
}

impl View for BooleanExpr {
    type V = BoolNodeV;

    open spec fn view(&self) -> BoolNodeV {
        node_view(self.root)
    }
}

/// The model of a list of property names.
pub open spec fn ids_view(s: Seq<ID>) -> Seq<Seq<char>> {
    s.map_values(|id: ID| id@)
}

impl View for Select {
    type V = Seq<Seq<char>>;

    open spec fn view(&self) -> Seq<Seq<char>> {
        ids_view(self.props@)
    }
}

impl View for Filter {
    type V = BoolNodeV;

    open spec fn view(&self) -> BoolNodeV {
        node_view(self.expression.root)
    }
}

impl View for Insert {
    type V = InsertV;

    open spec fn view(&self) -> InsertV {
        InsertV { table: self.table@, data: self.data@ }
    }
}

impl View for Op {
    type V = OpV;

    open spec fn view(&self) -> OpV {
        match self {
            Op::SELECT(s) => OpV::SELECT(s@),
            Op::FILTER(f) => OpV::FILTER(f@),
        }
    }
}

/// The model of a list of operations.
pub open spec fn ops_view(s: Seq<Op>) -> Seq<OpV> {
    s.map_values(|o: Op| o@)
}

impl View for Query {
    type V = QueryV;

    open spec fn view(&self) -> QueryV {
        QueryV { source: self.source@, operations: ops_view(self.operations@) }
    }
}

/// The larger of two sizes.
pub open spec fn nat_max(a: nat, b: nat) -> nat {
    if a >= b {
        a
    } else {
        b
    }
}

/// A string fits its variable-size field.
pub open spec fn str_wf(s: Seq<char>) -> bool {
    encode_utf8(s).len() <= spec_var_max()
}

/// A node value within the declared field bounds.
pub open spec fn bool_type_wf(t: BoolTypeV) -> bool {
    match t {
        BoolTypeV::BOOL(_) => true,
        BoolTypeV::IDENT(s) => str_wf(s),
        BoolTypeV::OP(_) => true,
        BoolTypeV::VALUE(b) => b.len() <= spec_var_max(),
    }
}

/// A tree within the declared field bounds: each child list holds at most
/// one node.
pub open spec fn node_wf(n: BoolNodeV) -> bool
    decreases n,
{
    &&& bool_type_wf(n.value)
    &&& n.left.len() <= 1
    &&& n.right.len() <= 1
    &&& node_list_wf(n.left)
    &&& node_list_wf(n.right)
}

/// Every node of a list within the declared field bounds.
pub open spec fn node_list_wf(s: Seq<BoolNodeV>) -> bool
    decreases s,
{
    if s.len() == 0 {
        true
    } else {
        node_wf(s[0]) && node_list_wf(s.skip(1))
    }
}

/// The arity invariant: a node whose value is the binary-operator kind has
/// exactly one left and one right child; a node of any other kind has zero
/// children.
pub open spec fn node_arity_ok(n: BoolNodeV) -> bool
    decreases n,
{
    &&& match n.value {
        BoolTypeV::OP(_) => n.left.len() == 1 && n.right.len() == 1,
        _ => n.left.len() == 0 && n.right.len() == 0,
    }
    &&& node_list_arity_ok(n.left)
    &&& node_list_arity_ok(n.right)
}

/// The arity invariant over a list of nodes.
pub open spec fn node_list_arity_ok(s: Seq<BoolNodeV>) -> bool
    decreases s,
{
    if s.len() == 0 {
        true
    } else {
        node_arity_ok(s[0]) && node_list_arity_ok(s.skip(1))
    }
}

/// The height of a tree: a childless node counts one.
pub open spec fn node_height(n: BoolNodeV) -> nat
    decreases n,
{
    1 + nat_max(node_list_height(n.left), node_list_height(n.right))
}

/// The largest height of the nodes of a list.
pub open spec fn node_list_height(s: Seq<BoolNodeV>) -> nat
    decreases s,
{
    if s.len() == 0 {
        0
    } else {
        nat_max(node_height(s[0]), node_list_height(s.skip(1)))
    }
}

/// A select within the declared field bounds.
pub open spec fn select_wf(props: Seq<Seq<char>>) -> bool {
    props.len() <= spec_var_max() && forall|i: int| 0 <= i < props.len() ==> str_wf(#[trigger] props[i])
}

/// An operation within the declared field bounds.
pub open spec fn op_wf(o: OpV) -> bool {
    match o {
        OpV::SELECT(props) => select_wf(props),
        OpV::FILTER(root) => node_wf(root),
    }
}

/// An insert within the declared field bounds.
pub open spec fn insert_wf(v: InsertV) -> bool {
    str_wf(v.table) && v.data.len() <= spec_var_max()
}

/// A query within the declared field bounds: the source table name takes at
/// most 64 bytes.
pub open spec fn query_wf(q: QueryV) -> bool {
    &&& encode_utf8(q.source).len() <= spec_source_max()
    &&& q.operations.len() <= spec_var_max()
    &&& forall|i: int| 0 <= i < q.operations.len() ==> op_wf(#[trigger] q.operations[i])
}

/// The height of the deepest predicate tree of a query; decoding the query
/// needs at least this depth allowance.
pub open spec fn query_height(q: QueryV) -> nat {
    ops_height(q.operations)
}

/// The height of the deepest predicate tree of an operation list.
pub open spec fn ops_height(s: Seq<OpV>) -> nat
    decreases s,
{
    if s.len() == 0 {
        0
    } else {
        nat_max(op_height(s[0]), ops_height(s.skip(1)))
    }
}

/// The height of the predicate tree of one operation.
pub open spec fn op_height(o: OpV) -> nat {
    match o {
        OpV::SELECT(_) => 0,
        OpV::FILTER(root) => node_height(root),
    }
}

impl BinaryOperator {
    /// The wire ordinal of this operator.
    pub open spec fn spec_ordinal(self) -> u32 {
        match self {
            BinaryOperator::EQUAL => 0,
            BinaryOperator::LT => 1,
            BinaryOperator::GT => 2,
            BinaryOperator::OR => 3,
            BinaryOperator::AND => 4,
        }
    }

    /// The wire ordinal of this operator.
    pub fn ordinal(&self) -> (r: u32)
        ensures
            r == self.spec_ordinal(),
    {
        match self {
            BinaryOperator::EQUAL => 0,
            BinaryOperator::LT => 1,
            BinaryOperator::GT => 2,
            BinaryOperator::OR => 3,
            BinaryOperator::AND => 4,
        }
    }
}

impl BoolCategory {
    /// The wire ordinal of this category.
    pub open spec fn spec_ordinal(self) -> u32 {
        match self {
            BoolCategory::BOOL => 0,
            BoolCategory::IDENT => 1,
            BoolCategory::OP => 2,
            BoolCategory::VALUE => 3,
        }
    }

    /// The wire ordinal of this category.
    pub fn ordinal(&self) -> (r: u32)
        ensures
            r == self.spec_ordinal(),
    {
        match self {
            BoolCategory::BOOL => 0,
            BoolCategory::IDENT => 1,
            BoolCategory::OP => 2,
            BoolCategory::VALUE => 3,
        }
    }
}

impl BoolType {
    /// The category a node value belongs to; its ordinal is the
    /// discriminant the value encodes under.
    pub open spec fn spec_category(self) -> BoolCategory {
        match self {
            BoolType::BOOL(_) => BoolCategory::BOOL,
            BoolType::IDENT(_) => BoolCategory::IDENT,
            BoolType::OP(_) => BoolCategory::OP,
            BoolType::VALUE(_) => BoolCategory::VALUE,
        }
    }

    /// The category this node value belongs to.
    pub fn category(&self) -> (r: BoolCategory)
        ensures
            r == self.spec_category(),
    {
        match self {
            BoolType::BOOL(_) => BoolCategory::BOOL,
            BoolType::IDENT(_) => BoolCategory::IDENT,
            BoolType::OP(_) => BoolCategory::OP,
            BoolType::VALUE(_) => BoolCategory::VALUE,
        }
    }
}

/// Encoding of an operator: its ordinal as a 4-byte discriminant.
pub open spec fn enc_bin_op(o: BinaryOperator) -> Seq<u8> {
    enc_u32(o.spec_ordinal())
}

/// Decode of an operator: an ordinal past the last operator selects no
/// variant.
pub open spec fn dec_bin_op(s: Seq<u8>) -> Result<(BinaryOperator, int), CodecError> {
    match dec_u32(s) {
        Ok((d, n)) => if d == 0 {
            Ok((BinaryOperator::EQUAL, n))
        } else if d == 1 {
            Ok((BinaryOperator::LT, n))
        } else if d == 2 {
            Ok((BinaryOperator::GT, n))
        } else if d == 3 {
            Ok((BinaryOperator::OR, n))
        } else if d == 4 {
            Ok((BinaryOperator::AND, n))
        } else {
            Err(CodecError::UnknownVariant)
        },
        Err(e) => Err(e),
    }
}

/// Encoding of a node value: the category ordinal, then the payload of the
/// selected variant.
pub open spec fn enc_bool_type(t: BoolTypeV) -> Seq<u8> {
    match t {
        BoolTypeV::BOOL(b) => enc_u32(0) + enc_bool(b),
        BoolTypeV::IDENT(s) => enc_u32(1) + enc_str(s),
        BoolTypeV::OP(o) => enc_u32(2) + enc_bin_op(o),
        BoolTypeV::VALUE(b) => enc_u32(3) + enc_bytes(b),
    }
}

/// Decode of a node value: read the discriminant, dispatch to the matching
/// variant; an out-of-range discriminant selects no variant and never
/// defaults.
pub open spec fn dec_bool_type(s: Seq<u8>) -> Result<(BoolTypeV, int), CodecError> {
    match dec_u32(s) {
        Ok((d, n)) => if d == 0 {
            match dec_bool(s.skip(n)) {
                Ok((b, m)) => Ok((BoolTypeV::BOOL(b), n + m)),
                Err(e) => Err(e),
            }
        } else if d == 1 {
            match dec_str(s.skip(n), spec_var_max()) {
                Ok((t, m)) => Ok((BoolTypeV::IDENT(t), n + m)),
                Err(e) => Err(e),
            }
        } else if d == 2 {
            match dec_bin_op(s.skip(n)) {
                Ok((o, m)) => Ok((BoolTypeV::OP(o), n + m)),
                Err(e) => Err(e),
            }
        } else if d == 3 {
            match dec_bytes(s.skip(n), spec_var_max()) {
                Ok((b, m)) => Ok((BoolTypeV::VALUE(b), n + m)),
                Err(e) => Err(e),
            }
        } else {
            Err(CodecError::UnknownVariant)
        },
        Err(e) => Err(e),
    }
}

/// Encoding of one tree node: its value, then the left and right child
/// lists, each a variable-size array of at most one node.
pub open spec fn enc_node(n: BoolNodeV) -> Seq<u8>
    decreases n, 2int,
{
    enc_bool_type(n.value) + enc_children(n.left) + enc_children(n.right)
}

/// Encoding of one child list: its length, then the encodings of its nodes
/// in order.
pub open spec fn enc_children(s: Seq<BoolNodeV>) -> Seq<u8>
    decreases s, 1int,
{
    enc_u32(s.len() as u32) + enc_node_list(s)
}

/// The concatenated encodings of a list of nodes.
pub open spec fn enc_node_list(s: Seq<BoolNodeV>) -> Seq<u8>
    decreases s, 0int,
{
    if s.len() == 0 {
        Seq::empty()
    } else {
        enc_node(s[0]) + enc_node_list(s.skip(1))
    }
}

/// Decode of one tree node, within a recursion allowance: a tree deeper
/// than `depth` is rejected as no encoding, never followed.
pub open spec fn dec_node(s: Seq<u8>, depth: nat) -> Result<(BoolNodeV, int), CodecError>
    decreases depth, 0int,
{
    if depth == 0 {
        Err(CodecError::InvalidEncoding)
    } else {
        match dec_bool_type(s) {
            Ok((value, n1)) => match dec_children(s.skip(n1), (depth - 1) as nat) {
                Ok((left, n2)) => match dec_children(s.skip(n1 + n2), (depth - 1) as nat) {
                    Ok((right, n3)) => Ok((BoolNodeV { value, left, right }, n1 + n2 + n3)),
                    Err(e) => Err(e),
                },
                Err(e) => Err(e),
            },
            Err(e) => Err(e),
        }
    }
}

/// Decode of one child list: a declared length above one is no encoding of
/// a child list.
pub open spec fn dec_children(s: Seq<u8>, depth: nat) -> Result<
    (Seq<BoolNodeV>, int),
    CodecError,
>
    decreases depth, 1int,
{
    match dec_u32(s) {
        Ok((len, n)) => if len > 1 {
            Err(CodecError::InvalidEncoding)
        } else if len == 0 {
            Ok((Seq::empty(), n))
        } else {
            match dec_node(s.skip(n), depth) {
                Ok((child, m)) => Ok((seq![child], n + m)),
                Err(e) => Err(e),
            }
        },
        Err(e) => Err(e),
    }
}

/// Encoding of one property name.
pub open spec fn enc_id(s: Seq<char>) -> Seq<u8> {
    enc_str(s)
}

/// The concatenated encodings of a list of property names.
pub open spec fn enc_id_list(s: Seq<Seq<char>>) -> Seq<u8>
    decreases s,
{
    if s.len() == 0 {
        Seq::empty()
    } else {
        enc_id(s[0]) + enc_id_list(s.skip(1))
    }
}

/// Encoding of a projection: the count of property names, then each name.
pub open spec fn enc_select(props: Seq<Seq<char>>) -> Seq<u8> {
    enc_u32(props.len() as u32) + enc_id_list(props)
}

/// Decode of `count` property names from the head of `s`.
pub open spec fn dec_id_list(s: Seq<u8>, count: nat) -> Result<(Seq<Seq<char>>, int), CodecError>
    decreases count,
{
    if count == 0 {
        Ok((Seq::empty(), 0))
    } else {
        match dec_str(s, spec_var_max()) {
            Ok((t, n)) => match dec_id_list(s.skip(n), (count - 1) as nat) {
                Ok((ts, m)) => Ok((seq![t] + ts, n + m)),
                Err(e) => Err(e),
            },
            Err(e) => Err(e),
        }
    }
}

/// Decode of a projection.
pub open spec fn dec_select(s: Seq<u8>) -> Result<(Seq<Seq<char>>, int), CodecError> {
    match dec_u32(s) {
        Ok((count, n)) => if count > spec_var_max() {
            Err(CodecError::InvalidEncoding)
        } else {
            match dec_id_list(s.skip(n), count as nat) {
                Ok((props, m)) => Ok((props, n + m)),
                Err(e) => Err(e),
            }
        },
        Err(e) => Err(e),
    }
}

/// Encoding of one operation: its kind's ordinal, then the payload of the
/// selected variant.
pub open spec fn enc_op(o: OpV) -> Seq<u8> {
    match o {
        OpV::SELECT(props) => enc_u32(0) + enc_select(props),
        OpV::FILTER(root) => enc_u32(1) + enc_node(root),
    }
}

/// Decode of one operation: an out-of-range discriminant selects no
/// variant.
pub open spec fn dec_op(s: Seq<u8>, depth: nat) -> Result<(OpV, int), CodecError> {
    match dec_u32(s) {
        Ok((d, n)) => if d == 0 {
            match dec_select(s.skip(n)) {
                Ok((props, m)) => Ok((OpV::SELECT(props), n + m)),
                Err(e) => Err(e),
            }
        } else if d == 1 {
            match dec_node(s.skip(n), depth) {
                Ok((root, m)) => Ok((OpV::FILTER(root), n + m)),
                Err(e) => Err(e),
            }
        } else {
            Err(CodecError::UnknownVariant)
        },
        Err(e) => Err(e),
    }
}

/// The concatenated encodings of a list of operations.
pub open spec fn enc_op_list(s: Seq<OpV>) -> Seq<u8>
    decreases s,
{
    if s.len() == 0 {
        Seq::empty()
    } else {
        enc_op(s[0]) + enc_op_list(s.skip(1))
    }
}

/// Decode of `count` operations from the head of `s`.
pub open spec fn dec_op_list(s: Seq<u8>, count: nat, depth: nat) -> Result<
    (Seq<OpV>, int),
    CodecError,
>
    decreases count,
{
    if count == 0 {
        Ok((Seq::empty(), 0))
    } else {
        match dec_op(s, depth) {
            Ok((o, n)) => match dec_op_list(s.skip(n), (count - 1) as nat, depth) {
                Ok((os, m)) => Ok((seq![o] + os, n + m)),
                Err(e) => Err(e),
            },
            Err(e) => Err(e),
        }
    }
}

/// Encoding of an insert: the table name, then the opaque row bytes.
pub open spec fn enc_insert(v: InsertV) -> Seq<u8> {
    enc_str(v.table) + enc_bytes(v.data)
}

/// Decode of an insert.
pub open spec fn dec_insert(s: Seq<u8>) -> Result<(InsertV, int), CodecError> {
    match dec_str(s, spec_var_max()) {
        Ok((table, n)) => match dec_bytes(s.skip(n), spec_var_max()) {
            Ok((data, m)) => Ok((InsertV { table, data }, n + m)),
            Err(e) => Err(e),
        },
        Err(e) => Err(e),
    }
}

/// Encoding of a query: the source table name, then the operation count and
/// each operation in order.
pub open spec fn enc_query(q: QueryV) -> Seq<u8> {
    enc_str(q.source) + enc_u32(q.operations.len() as u32) + enc_op_list(q.operations)
}

/// Decode of a query, within a recursion allowance for its predicate trees.
pub open spec fn dec_query(s: Seq<u8>, depth: nat) -> Result<(QueryV, int), CodecError> {
    match dec_str(s, spec_source_max()) {
        Ok((source, n1)) => match dec_u32(s.skip(n1)) {
            Ok((count, n2)) => if count > spec_var_max() {
                Err(CodecError::InvalidEncoding)
            } else {
                match dec_op_list(s.skip(n1 + n2), count as nat, depth) {
                    Ok((operations, n3)) => Ok(
                        (QueryV { source, operations }, n1 + n2 + n3),
                    ),
                    Err(e) => Err(e),
                }
            },
            Err(e) => Err(e),
        },
        Err(e) => Err(e),
    }
}

impl ID {
    /// Whether this name fits its field bounds.
    pub fn check_wf(&self) -> (b: bool)
        ensures
            b == str_wf(self@),
    {
        self.t.as_str().as_bytes().len() <= 0x7fffffff
    }
}

impl BinaryValue {
    /// Whether this operand fits its field bounds.
    pub fn check_wf(&self) -> (b: bool)
        ensures
            b == (self@.len() <= spec_var_max()),
    {
        self.t.len() <= 0x7fffffff
    }
}

impl BoolType {
    /// Whether this node value fits its field bounds.
    pub fn check_wf(&self) -> (b: bool)
        ensures
            b == bool_type_wf(self@),
    {
        match self {
            BoolType::BOOL(_) => true,
            BoolType::IDENT(s) => s.as_str().as_bytes().len() <= 0x7fffffff,
            BoolType::OP(_) => true,
            BoolType::VALUE(v) => v.t.len() <= 0x7fffffff,
        }
    }

    /// Append the encoding of this node value.
    fn encode_unchecked(&self, out: &mut Vec<u8>)
        requires
            bool_type_wf(self@),
        ensures
            final(out)@ == old(out)@ + enc_bool_type(self@),
    {
        match self {
            BoolType::BOOL(b) => {
                write_u32(out, 0);
                write_u32(out, if *b { 1 } else { 0 });
            },
            BoolType::IDENT(s) => {
                write_u32(out, 1);
                write_str(out, s.as_str());
            },
            BoolType::OP(o) => {
                write_u32(out, 2);
                write_u32(out, o.ordinal());
            },
            BoolType::VALUE(v) => {
                write_u32(out, 3);
                write_bytes(out, v.t.as_slice());
            },
        }
        proof {
            assert(final(out)@ =~= old(out)@ + enc_bool_type(self@));
        }
    }
}

impl BoolNode {
    /// Whether this tree fits its field bounds: each child list holds at
    /// most one node.
    pub fn check_wf(&self) -> (b: bool)
        ensures
            b == node_wf(self@),
        decreases *self,
    {
        proof {
            lemma_nodes_view(self.left@);
            lemma_nodes_view(self.right@);
        }
        if !self.value.check_wf() {
            return false;
        }
        if self.left.len() > 1 || self.right.len() > 1 {
            return false;
        }
        if self.left.len() == 1 && !self.left[0].check_wf() {
            return false;
        }
        if self.right.len() == 1 && !self.right[0].check_wf() {
            return false;
        }
        proof {
            let vl = nodes_view(self.left@);
            let vr = nodes_view(self.right@);
            if self.left@.len() == 0 {
                assert(vl =~= Seq::<BoolNodeV>::empty());
            } else {
                assert(vl[0] == self.left@[0]@);
                assert(vl.skip(1) =~= Seq::<BoolNodeV>::empty());
                assert(node_list_wf(vl.skip(1)));
            }
            assert(node_list_wf(vl));
            if self.right@.len() == 0 {
                assert(vr =~= Seq::<BoolNodeV>::empty());
            } else {
                assert(vr[0] == self.right@[0]@);
                assert(vr.skip(1) =~= Seq::<BoolNodeV>::empty());
                assert(node_list_wf(vr.skip(1)));
            }
            assert(node_list_wf(vr));
        }
        true
    }

    /// Append the encoding of this tree.
    fn encode_unchecked(&self, out: &mut Vec<u8>)
        requires
            node_wf(self@),
        ensures
            final(out)@ == old(out)@ + enc_node(self@),
        decreases *self, 1int,
    {
        proof {
            lemma_nodes_view(self.left@);
            lemma_nodes_view(self.right@);
        }
        self.value.encode_unchecked(out);
        Self::encode_children(&self.left, out);
        Self::encode_children(&self.right, out);
        proof {
            assert(final(out)@ =~= old(out)@ + enc_node(self@));
        }
    }

    /// Append the encoding of one child list.
    fn encode_children(children: &Vec<BoolNode>, out: &mut Vec<u8>)
        requires
            children@.len() <= 1,
            node_list_wf(nodes_view(children@)),
        ensures
            final(out)@ == old(out)@ + enc_children(nodes_view(children@)),
        decreases *children, 0int,
    {
        proof {
            lemma_nodes_view(children@);
        }
        write_u32(out, children.len() as u32);
        if children.len() == 1 {
            children[0].encode_unchecked(out);
            proof {
                let v = nodes_view(children@);
                assert(v.len() == 1);
                assert(v[0] == children@[0]@);
                assert(v.skip(1) =~= Seq::<BoolNodeV>::empty());
                assert(enc_node_list(v.skip(1)) == Seq::<u8>::empty());
                assert(enc_node_list(v) == enc_node(v[0]) + enc_node_list(v.skip(1)));
                assert(final(out)@ =~= old(out)@ + enc_children(v));
            }
        } else {
            proof {
                assert(final(out)@ =~= old(out)@ + enc_children(nodes_view(children@)));
            }
        }
    }

    /// Append the encoding of this tree, or reject a tree outside its field
    /// bounds without writing anything.
    pub fn encode(&self, out: &mut Vec<u8>) -> (r: Result<(), CodecError>)
        ensures
            match r {
                Ok(_) => node_wf(self@) && final(out)@ == old(out)@ + enc_node(self@),
                Err(e) => {
                    &&& !node_wf(self@)
                    &&& e == CodecError::InvalidEncoding
                    &&& final(out)@ == old(out)@
                },
            },
    {
        if self.check_wf() {
            self.encode_unchecked(out);
            Ok(())
        } else {
            Err(CodecError::InvalidEncoding)
        }
    }
}

impl BooleanExpr {
    /// Whether this predicate fits its field bounds.
    pub fn check_wf(&self) -> (b: bool)
        ensures
            b == node_wf(self@),
    {
        self.root.check_wf()
    }

    /// Append the encoding of this predicate: the encoding of its root.
    pub fn encode(&self, out: &mut Vec<u8>) -> (r: Result<(), CodecError>)
        ensures
            match r {
                Ok(_) => node_wf(self@) && final(out)@ == old(out)@ + enc_node(self@),
                Err(e) => {
                    &&& !node_wf(self@)
                    &&& e == CodecError::InvalidEncoding
                    &&& final(out)@ == old(out)@
                },
            },
    {
        self.root.encode(out)
    }

    /// Decode one predicate, within a recursion allowance for its tree.
    pub fn decode<'a>(dec: &mut Decoder<'a>, depth: u32) -> (r: Result<BooleanExpr, CodecError>)
        requires
            old(dec).wf(),
        ensures
            final(dec).wf(),
            final(dec).data() == old(dec).data(),
            old(dec).pos() <= final(dec).pos(),
            match dec_node(old(dec).remaining(), depth as nat) {
                Ok((v, n)) => {
                    &&& r matches Ok(x) && x@ == v
                    &&& final(dec).pos() == old(dec).pos() + n
                },
                Err(e) => {
                    &&& r == Err::<BooleanExpr, CodecError>(e)
                    &&& old(dec).pos() <= final(dec).pos()
                },
            },
    {
        match BoolNode::decode(dec, depth) {
            Ok(root) => Ok(BooleanExpr { root }),
            Err(e) => Err(e),
        }
    }
}

impl BinaryOperator {
    /// Decode one operator: an ordinal past the last operator selects no
    /// variant.
    pub fn decode<'a>(dec: &mut Decoder<'a>) -> (r: Result<BinaryOperator, CodecError>)
        requires
            old(dec).wf(),
        ensures
            final(dec).wf(),
            final(dec).data() == old(dec).data(),
            old(dec).pos() <= final(dec).pos(),
            match dec_bin_op(old(dec).remaining()) {
                Ok((v, n)) => {
                    &&& r matches Ok(x) && x == v
                    &&& final(dec).pos() == old(dec).pos() + n
                },
                Err(e) => {
                    &&& r == Err::<BinaryOperator, CodecError>(e)
                    &&& old(dec).pos() <= final(dec).pos()
                },
            },
    {
        match dec.read_u32() {
            Ok(0) => Ok(BinaryOperator::EQUAL),
            Ok(1) => Ok(BinaryOperator::LT),
            Ok(2) => Ok(BinaryOperator::GT),
            Ok(3) => Ok(BinaryOperator::OR),
            Ok(4) => Ok(BinaryOperator::AND),
            Ok(_) => Err(CodecError::UnknownVariant),
            Err(e) => Err(e),
        }
    }
}

impl BoolType {
    /// Decode one node value: read the discriminant, dispatch to the
    /// matching variant; an out-of-range discriminant selects no variant.
    pub fn decode<'a>(dec: &mut Decoder<'a>) -> (r: Result<BoolType, CodecError>)
        requires
            old(dec).wf(),
        ensures
            final(dec).wf(),
            final(dec).data() == old(dec).data(),
            old(dec).pos() <= final(dec).pos(),
            match dec_bool_type(old(dec).remaining()) {
                Ok((v, n)) => {
                    &&& r matches Ok(x) && x@ == v
                    &&& final(dec).pos() == old(dec).pos() + n
                },
                Err(e) => {
                    &&& r == Err::<BoolType, CodecError>(e)
                    &&& old(dec).pos() <= final(dec).pos()
                },
            },
    {
        let ghost rem0 = old(dec).remaining();
        let d = match dec.read_u32() {
            Ok(v) => v,
            Err(e) => {
                return Err(e);
            },
        };
        proof {
            assert(dec.remaining() =~= rem0.skip(4));
        }
        if d == 0 {
            match dec.read_bool() {
                Ok(b) => Ok(BoolType::BOOL(b)),
                Err(e) => Err(e),
            }
        } else if d == 1 {
            match dec.read_string(var_max()) {
                Ok(s) => Ok(BoolType::IDENT(s)),
                Err(e) => Err(e),
            }
        } else if d == 2 {
            match BinaryOperator::decode(dec) {
                Ok(o) => Ok(BoolType::OP(o)),
                Err(e) => Err(e),
            }
        } else if d == 3 {
            match dec.read_bytes(var_max()) {
                Ok(t) => Ok(BoolType::VALUE(BinaryValue { t })),
                Err(e) => Err(e),
            }
        } else {
            Err(CodecError::UnknownVariant)
        }
    }
}

impl BoolNode {
    /// Decode one tree node, within a recursion allowance: a tree deeper
    /// than `depth` is rejected, never followed.
    pub fn decode<'a>(dec: &mut Decoder<'a>, depth: u32) -> (r: Result<BoolNode, CodecError>)
        requires
            old(dec).wf(),
        ensures
            final(dec).wf(),
            final(dec).data() == old(dec).data(),
            old(dec).pos() <= final(dec).pos(),
            match dec_node(old(dec).remaining(), depth as nat) {
                Ok((v, n)) => {
                    &&& r matches Ok(x) && x@ == v
                    &&& final(dec).pos() == old(dec).pos() + n
                },
                Err(e) => {
                    &&& r == Err::<BoolNode, CodecError>(e)
                    &&& old(dec).pos() <= final(dec).pos()
                },
            },
        decreases depth, 0int,
    {
        let ghost rem0 = old(dec).remaining();
        if depth == 0 {
            return Err(CodecError::InvalidEncoding);
        }
        let value = match BoolType::decode(dec) {
            Ok(v) => v,
            Err(e) => {
                return Err(e);
            },
        };
        let ghost n1 = dec.pos() - old(dec).pos();
        proof {
            assert(dec.remaining() =~= rem0.skip(n1));
        }
        let left = match Self::decode_children(dec, depth - 1) {
            Ok(v) => v,
            Err(e) => {
                return Err(e);
            },
        };
        let ghost n2 = dec.pos() - old(dec).pos() - n1;
        proof {
            assert(dec.remaining() =~= rem0.skip(n1 + n2));
        }
        let right = match Self::decode_children(dec, depth - 1) {
            Ok(v) => v,
            Err(e) => {
                return Err(e);
            },
        };
        Ok(BoolNode { value, left, right })
    }

    /// Decode one child list of at most one node.
    fn decode_children<'a>(dec: &mut Decoder<'a>, depth: u32) -> (r: Result<
        Vec<BoolNode>,
        CodecError,
    >)
        requires
            old(dec).wf(),
        ensures
            final(dec).wf(),
            final(dec).data() == old(dec).data(),
            old(dec).pos() <= final(dec).pos(),
            match dec_children(old(dec).remaining(), depth as nat) {
                Ok((v, n)) => {
                    &&& r matches Ok(x) && nodes_view(x@) == v
                    &&& final(dec).pos() == old(dec).pos() + n
                },
                Err(e) => {
                    &&& r == Err::<Vec<BoolNode>, CodecError>(e)
                    &&& old(dec).pos() <= final(dec).pos()
                },
            },
        decreases depth, 1int,
    {
        let ghost rem0 = old(dec).remaining();
        let len = match dec.read_u32() {
            Ok(v) => v,
            Err(e) => {
                return Err(e);
            },
        };
        if len > 1 {
            return Err(CodecError::InvalidEncoding);
        }
        if len == 0 {
            let empty: Vec<BoolNode> = Vec::new();
            proof {
                assert(nodes_view(empty@) =~= Seq::<BoolNodeV>::empty());
            }
            return Ok(empty);
        }
        proof {
            assert(dec.remaining() =~= rem0.skip(4));
        }
        let child = match Self::decode(dec, depth) {
            Ok(v) => v,
            Err(e) => {
                return Err(e);
            },
        };
        let mut one: Vec<BoolNode> = Vec::new();
        one.push(child);
        proof {
            assert(one@.skip(1) =~= Seq::<BoolNode>::empty());
            assert(nodes_view(one@.skip(1)) =~= Seq::<BoolNodeV>::empty());
            assert(nodes_view(one@) =~= seq![child@]);
        }
        Ok(one)
    }
}

impl Select {
    /// Whether this projection fits its field bounds.
    pub fn check_wf(&self) -> (b: bool)
        ensures
            b == select_wf(self@),
    {
        if self.props.len() > 0x7fffffff {
            return false;
        }
        let mut i: usize = 0;
        while i < self.props.len()
            invariant
                i <= self.props@.len(),
                self.props@.len() <= 0x7fffffff,
                forall|j: int| 0 <= j < i ==> str_wf(#[trigger] ids_view(self.props@)[j]),
            decreases self.props@.len() - i,
        {
            if !self.props[i].check_wf() {
                proof {
                    assert(ids_view(self.props@)[i as int] == self.props@[i as int]@);
                }
                return false;
            }
            i = i + 1;
        }
        true
    }

    /// Append the encodings of the property names from `from` on.
    fn encode_id_list(props: &Vec<ID>, from: usize, out: &mut Vec<u8>)
        requires
            from <= props@.len(),
            forall|i: int| from <= i < props@.len() ==> str_wf(#[trigger] ids_view(props@)[i]),
        ensures
            final(out)@ == old(out)@ + enc_id_list(ids_view(props@).skip(from as int)),
        decreases props@.len() - from,
    {
        let ghost v = ids_view(props@);
        if from < props.len() {
            proof {
                assert(str_wf(v[from as int]));
                assert(v[from as int] == props@[from as int]@);
            }
            write_str(out, props[from].t.as_str());
            Self::encode_id_list(props, from + 1, out);
            proof {
                assert(v.skip(from as int)[0] == v[from as int]);
                assert(v.skip(from as int).skip(1) =~= v.skip(from as int + 1));
                assert(enc_id_list(v.skip(from as int)) == enc_id(v[from as int]) + enc_id_list(
                    v.skip(from as int + 1),
                ));
                assert(final(out)@ =~= old(out)@ + enc_id_list(v.skip(from as int)));
            }
        } else {
            proof {
                assert(v.skip(from as int) =~= Seq::<Seq<char>>::empty());
            }
        }
    }

    /// Append the encoding of this projection, or reject one outside its
    /// field bounds without writing anything.
    pub fn encode(&self, out: &mut Vec<u8>) -> (r: Result<(), CodecError>)
        ensures
            match r {
                Ok(_) => select_wf(self@) && final(out)@ == old(out)@ + enc_select(self@),
                Err(e) => {
                    &&& !select_wf(self@)
                    &&& e == CodecError::InvalidEncoding
                    &&& final(out)@ == old(out)@
                },
            },
    {
        if !self.check_wf() {
            return Err(CodecError::InvalidEncoding);
        }
        write_u32(out, self.props.len() as u32);
        Self::encode_id_list(&self.props, 0, out);
        proof {
            assert(ids_view(self.props@).skip(0) =~= ids_view(self.props@));
            assert(final(out)@ =~= old(out)@ + enc_select(self@));
        }
        Ok(())
    }

    /// Decode `count` property names, appending them to `out`.
    fn decode_id_list<'a>(dec: &mut Decoder<'a>, count: u32, out: &mut Vec<ID>) -> (r: Result<
        (),
        CodecError,
    >)
        requires
            old(dec).wf(),
        ensures
            final(dec).wf(),
            final(dec).data() == old(dec).data(),
            old(dec).pos() <= final(dec).pos(),
            match dec_id_list(old(dec).remaining(), count as nat) {
                Ok((ts, n)) => {
                    &&& r is Ok
                    &&& ids_view(final(out)@) == ids_view(old(out)@) + ts
                    &&& final(dec).pos() == old(dec).pos() + n
                },
                Err(e) => {
                    &&& r == Err::<(), CodecError>(e)
                    &&& old(dec).pos() <= final(dec).pos()
                },
            },
        decreases count,
    {
        if count == 0 {
            proof {
                assert(ids_view(out@) =~= ids_view(out@) + Seq::<Seq<char>>::empty());
            }
            return Ok(());
        }
        let ghost rem0 = old(dec).remaining();
        let t = match dec.read_string(var_max()) {
            Ok(v) => v,
            Err(e) => {
                return Err(e);
            },
        };
        let ghost n1 = dec.pos() - old(dec).pos();
        proof {
            assert(dec.remaining() =~= rem0.skip(n1));
        }
        out.push(ID { t });
        let ghost mid = out@;
        match Self::decode_id_list(dec, count - 1, out) {
            Ok(_) => {
                proof {
                    let ts2 = dec_id_list(rem0.skip(n1), (count - 1) as nat)->Ok_0.0;
                    assert(ids_view(mid) =~= ids_view(old(out)@) + seq![mid.last()@]);
                    assert((ids_view(old(out)@) + seq![mid.last()@]) + ts2 =~= ids_view(
                        old(out)@,
                    ) + (seq![mid.last()@] + ts2));
                }
                Ok(())
            },
            Err(e) => Err(e),
        }
    }

    /// Decode one projection.
    pub fn decode<'a>(dec: &mut Decoder<'a>) -> (r: Result<Select, CodecError>)
        requires
            old(dec).wf(),
        ensures
            final(dec).wf(),
            final(dec).data() == old(dec).data(),
            old(dec).pos() <= final(dec).pos(),
            match dec_select(old(dec).remaining()) {
                Ok((v, n)) => {
                    &&& r matches Ok(x) && x@ == v
                    &&& final(dec).pos() == old(dec).pos() + n
                },
                Err(e) => {
                    &&& r == Err::<Select, CodecError>(e)
                    &&& old(dec).pos() <= final(dec).pos()
                },
            },
    {
        let ghost rem0 = old(dec).remaining();
        let count = match dec.read_u32() {
            Ok(v) => v,
            Err(e) => {
                return Err(e);
            },
        };
        if count > var_max() {
            return Err(CodecError::InvalidEncoding);
        }
        proof {
            assert(dec.remaining() =~= rem0.skip(4));
        }
        let mut props: Vec<ID> = Vec::new();
        match Self::decode_id_list(dec, count, &mut props) {
            Ok(_) => {
                proof {
                    assert(ids_view(Seq::<ID>::empty()) =~= Seq::<Seq<char>>::empty());
                    if dec_id_list(rem0.skip(4), count as nat) is Ok {
                        let ts = dec_id_list(rem0.skip(4), count as nat)->Ok_0.0;
                        assert(ids_view(props@) =~= ts);
                    }
                }
                Ok(Select { props })
            },
            Err(e) => Err(e),
        }
    }
}

impl Filter {
    /// Whether this filter's predicate fits its field bounds.
    pub fn check_wf(&self) -> (b: bool)
        ensures
            b == node_wf(self@),
    {
        self.expression.check_wf()
    }

    /// Append the encoding of this filter: the encoding of its predicate.
    pub fn encode(&self, out: &mut Vec<u8>) -> (r: Result<(), CodecError>)
        ensures
            match r {
                Ok(_) => node_wf(self@) && final(out)@ == old(out)@ + enc_node(self@),
                Err(e) => {
                    &&& !node_wf(self@)
                    &&& e == CodecError::InvalidEncoding
                    &&& final(out)@ == old(out)@
                },
            },
    {
        self.expression.encode(out)
    }

    /// Decode one filter, within a recursion allowance for its predicate.
    pub fn decode<'a>(dec: &mut Decoder<'a>, depth: u32) -> (r: Result<Filter, CodecError>)
        requires
            old(dec).wf(),
        ensures
            final(dec).wf(),
            final(dec).data() == old(dec).data(),
            old(dec).pos() <= final(dec).pos(),
            match dec_node(old(dec).remaining(), depth as nat) {
                Ok((v, n)) => {
                    &&& r matches Ok(x) && x@ == v
                    &&& final(dec).pos() == old(dec).pos() + n
                },
                Err(e) => {
                    &&& r == Err::<Filter, CodecError>(e)
                    &&& old(dec).pos() <= final(dec).pos()
                },
            },
    {
        match BooleanExpr::decode(dec, depth) {
            Ok(expression) => Ok(Filter { expression }),
            Err(e) => Err(e),
        }
    }
}

impl Insert {
    /// Whether this insert fits its field bounds.
    pub fn check_wf(&self) -> (b: bool)
        ensures
            b == insert_wf(self@),
    {
        self.table.as_str().as_bytes().len() <= 0x7fffffff && self.data.len() <= 0x7fffffff
    }

    /// Append the encoding of this insert, or reject one outside its field
    /// bounds without writing anything.
    pub fn encode(&self, out: &mut Vec<u8>) -> (r: Result<(), CodecError>)
        ensures
            match r {
                Ok(_) => insert_wf(self@) && final(out)@ == old(out)@ + enc_insert(self@),
                Err(e) => {
                    &&& !insert_wf(self@)
                    &&& e == CodecError::InvalidEncoding
                    &&& final(out)@ == old(out)@
                },
            },
    {
        if !self.check_wf() {
            return Err(CodecError::InvalidEncoding);
        }
        write_str(out, self.table.as_str());
        write_bytes(out, self.data.as_slice());
        proof {
            assert(final(out)@ =~= old(out)@ + enc_insert(self@));
        }
        Ok(())
    }

    /// Decode one insert.
    pub fn decode<'a>(dec: &mut Decoder<'a>) -> (r: Result<Insert, CodecError>)
        requires
            old(dec).wf(),
        ensures
            final(dec).wf(),
            final(dec).data() == old(dec).data(),
            old(dec).pos() <= final(dec).pos(),
            match dec_insert(old(dec).remaining()) {
                Ok((v, n)) => {
                    &&& r matches Ok(x) && x@ == v
                    &&& final(dec).pos() == old(dec).pos() + n
                },
                Err(e) => {
                    &&& r == Err::<Insert, CodecError>(e)
                    &&& old(dec).pos() <= final(dec).pos()
                },
            },
    {
        let ghost rem0 = old(dec).remaining();
        let table = match dec.read_string(var_max()) {
            Ok(v) => v,
            Err(e) => {
                return Err(e);
            },
        };
        let ghost n1 = dec.pos() - old(dec).pos();
        proof {
            assert(dec.remaining() =~= rem0.skip(n1));
        }
        let data = match dec.read_bytes(var_max()) {
            Ok(v) => v,
            Err(e) => {
                return Err(e);
            },
        };
        Ok(Insert { table, data })
    }
}

impl Op {
    /// Whether this operation fits its field bounds.
    pub fn check_wf(&self) -> (b: bool)
        ensures
            b == op_wf(self@),
    {
        match self {
            Op::SELECT(s) => s.check_wf(),
            Op::FILTER(f) => f.check_wf(),
        }
    }

    /// Append the encoding of this operation, or reject one outside its
    /// field bounds without writing anything.
    pub fn encode(&self, out: &mut Vec<u8>) -> (r: Result<(), CodecError>)
        ensures
            match r {
                Ok(_) => op_wf(self@) && final(out)@ == old(out)@ + enc_op(self@),
                Err(e) => {
                    &&& !op_wf(self@)
                    &&& e == CodecError::InvalidEncoding
                    &&& final(out)@ == old(out)@
                },
            },
    {
        if !self.check_wf() {
            return Err(CodecError::InvalidEncoding);
        }
        match self {
            Op::SELECT(s) => {
                write_u32(out, 0);
                let _ = s.encode(out);
                proof {
                    assert(final(out)@ =~= old(out)@ + enc_op(self@));
                }
            },
            Op::FILTER(f) => {
                write_u32(out, 1);
                let _ = f.encode(out);
                proof {
                    assert(final(out)@ =~= old(out)@ + enc_op(self@));
                }
            },
        }
        Ok(())
    }

    /// Decode one operation: an out-of-range discriminant selects no
    /// variant.
    pub fn decode<'a>(dec: &mut Decoder<'a>, depth: u32) -> (r: Result<Op, CodecError>)
        requires
            old(dec).wf(),
        ensures
            final(dec).wf(),
            final(dec).data() == old(dec).data(),
            old(dec).pos() <= final(dec).pos(),
            match dec_op(old(dec).remaining(), depth as nat) {
                Ok((v, n)) => {
                    &&& r matches Ok(x) && x@ == v
                    &&& final(dec).pos() == old(dec).pos() + n
                },
                Err(e) => {
                    &&& r == Err::<Op, CodecError>(e)
                    &&& old(dec).pos() <= final(dec).pos()
                },
            },
    {
        let ghost rem0 = old(dec).remaining();
        let d = match dec.read_u32() {
            Ok(v) => v,
            Err(e) => {
                return Err(e);
            },
        };
        proof {
            assert(dec.remaining() =~= rem0.skip(4));
        }
        if d == 0 {
            match Select::decode(dec) {
                Ok(s) => Ok(Op::SELECT(s)),
                Err(e) => Err(e),
            }
        } else if d == 1 {
            match Filter::decode(dec, depth) {
                Ok(f) => Ok(Op::FILTER(f)),
                Err(e) => Err(e),
            }
        } else {
            Err(CodecError::UnknownVariant)
        }
    }
}

impl Query {
    /// Whether this query is the identity operation over its source table:
    /// an empty operation list is legal and denotes exactly that — no
    /// projection and no filter.
    pub fn is_identity(&self) -> (r: bool)
        ensures
            r == (self@.operations.len() == 0),
    {
        self.operations.len() == 0
    }

    /// Whether this query fits its field bounds: the source table name
    /// takes at most 64 bytes.
    pub fn check_wf(&self) -> (b: bool)
        ensures
            b == query_wf(self@),
    {
        if self.source.as_str().as_bytes().len() > 64 {
            return false;
        }
        if self.operations.len() > 0x7fffffff {
            return false;
        }
        let mut i: usize = 0;
        while i < self.operations.len()
            invariant
                i <= self.operations@.len(),
                self.operations@.len() <= 0x7fffffff,
                encode_utf8(self.source@).len() <= spec_source_max(),
                forall|j: int| 0 <= j < i ==> op_wf(#[trigger] ops_view(self.operations@)[j]),
            decreases self.operations@.len() - i,
        {
            if !self.operations[i].check_wf() {
                proof {
                    assert(ops_view(self.operations@)[i as int] == self.operations@[i as int]@);
                }
                return false;
            }
            i = i + 1;
        }
        true
    }

    /// Append the encodings of the operations from `from` on.
    fn encode_op_list(operations: &Vec<Op>, from: usize, out: &mut Vec<u8>)
        requires
            from <= operations@.len(),
            forall|i: int|
                from <= i < operations@.len() ==> op_wf(#[trigger] ops_view(operations@)[i]),
        ensures
            final(out)@ == old(out)@ + enc_op_list(ops_view(operations@).skip(from as int)),
        decreases operations@.len() - from,
    {
        let ghost v = ops_view(operations@);
        if from < operations.len() {
            proof {
                assert(op_wf(v[from as int]));
                assert(v[from as int] == operations@[from as int]@);
            }
            let _ = operations[from].encode(out);
            Self::encode_op_list(operations, from + 1, out);
            proof {
                assert(v.skip(from as int)[0] == v[from as int]);
                assert(v.skip(from as int).skip(1) =~= v.skip(from as int + 1));
                assert(enc_op_list(v.skip(from as int)) == enc_op(v[from as int]) + enc_op_list(
                    v.skip(from as int + 1),
                ));
                assert(final(out)@ =~= old(out)@ + enc_op_list(v.skip(from as int)));
            }
        } else {
            proof {
                assert(v.skip(from as int) =~= Seq::<OpV>::empty());
            }
        }
    }

    /// Append the encoding of this query, or reject one outside its field
    /// bounds without writing anything.
    pub fn encode(&self, out: &mut Vec<u8>) -> (r: Result<(), CodecError>)
        ensures
            match r {
                Ok(_) => query_wf(self@) && final(out)@ == old(out)@ + enc_query(self@),
                Err(e) => {
                    &&& !query_wf(self@)
                    &&& e == CodecError::InvalidEncoding
                    &&& final(out)@ == old(out)@
                },
            },
    {
        if !self.check_wf() {
            return Err(CodecError::InvalidEncoding);
        }
        write_str(out, self.source.as_str());
        write_u32(out, self.operations.len() as u32);
        Self::encode_op_list(&self.operations, 0, out);
        proof {
            assert(ops_view(self.operations@).skip(0) =~= ops_view(self.operations@));
            assert(final(out)@ =~= old(out)@ + enc_query(self@));
        }
        Ok(())
    }

    /// Decode `count` operations, appending them to `out`.
    fn decode_op_list<'a>(
        dec: &mut Decoder<'a>,
        count: u32,
        depth: u32,
        out: &mut Vec<Op>,
    ) -> (r: Result<(), CodecError>)
        requires
            old(dec).wf(),
        ensures
            final(dec).wf(),
            final(dec).data() == old(dec).data(),
            old(dec).pos() <= final(dec).pos(),
            match dec_op_list(old(dec).remaining(), count as nat, depth as nat) {
                Ok((os, n)) => {
                    &&& r is Ok
                    &&& ops_view(final(out)@) == ops_view(old(out)@) + os
                    &&& final(dec).pos() == old(dec).pos() + n
                },
                Err(e) => {
                    &&& r == Err::<(), CodecError>(e)
                    &&& old(dec).pos() <= final(dec).pos()
                },
            },
        decreases count,
    {
        if count == 0 {
            proof {
                assert(ops_view(out@) =~= ops_view(out@) + Seq::<OpV>::empty());
            }
            return Ok(());
        }
        let ghost rem0 = old(dec).remaining();
        let o = match Op::decode(dec, depth) {
            Ok(v) => v,
            Err(e) => {
                return Err(e);
            },
        };
        let ghost n1 = dec.pos() - old(dec).pos();
        proof {
            assert(dec.remaining() =~= rem0.skip(n1));
        }
        out.push(o);
        let ghost mid = out@;
        match Self::decode_op_list(dec, count - 1, depth, out) {
            Ok(_) => {
                proof {
                    let os2 = dec_op_list(rem0.skip(n1), (count - 1) as nat, depth as nat)->Ok_0.0;
                    assert(ops_view(mid) =~= ops_view(old(out)@) + seq![mid.last()@]);
                    assert((ops_view(old(out)@) + seq![mid.last()@]) + os2 =~= ops_view(
                        old(out)@,
                    ) + (seq![mid.last()@] + os2));
                }
                Ok(())
            },
            Err(e) => Err(e),
        }
    }

    /// Decode one query, within a recursion allowance for its predicate
    /// trees.
    pub fn decode<'a>(dec: &mut Decoder<'a>, depth: u32) -> (r: Result<Query, CodecError>)
        requires
            old(dec).wf(),
        ensures
            final(dec).wf(),
            final(dec).data() == old(dec).data(),
            old(dec).pos() <= final(dec).pos(),
            match dec_query(old(dec).remaining(), depth as nat) {
                Ok((v, n)) => {
                    &&& r matches Ok(x) && x@ == v
                    &&& final(dec).pos() == old(dec).pos() + n
                },
                Err(e) => {
                    &&& r == Err::<Query, CodecError>(e)
                    &&& old(dec).pos() <= final(dec).pos()
                },
            },
    {
        let ghost rem0 = old(dec).remaining();
        let source = match dec.read_string(64) {
            Ok(v) => v,
            Err(e) => {
                return Err(e);
            },
        };
        let ghost n1 = dec.pos() - old(dec).pos();
        proof {
            assert(dec.remaining() =~= rem0.skip(n1));
        }
        let count = match dec.read_u32() {
            Ok(v) => v,
            Err(e) => {
                return Err(e);
            },
        };
        if count > var_max() {
            return Err(CodecError::InvalidEncoding);
        }
        proof {
            assert(dec.remaining() =~= rem0.skip(n1 + 4));
        }
        let mut operations: Vec<Op> = Vec::new();
        match Self::decode_op_list(dec, count, depth, &mut operations) {
            Ok(_) => {
                proof {
                    assert(ops_view(Seq::<Op>::empty()) =~= Seq::<OpV>::empty());
                    if dec_op_list(rem0.skip(n1 + 4), count as nat, depth as nat) is Ok {
                        let os = dec_op_list(rem0.skip(n1 + 4), count as nat, depth as nat)->Ok_0.0;
                        assert(ops_view(operations@) =~= os);
                    }
                }
                Ok(Query { source, operations })
            },
            Err(e) => Err(e),
        }
    }
}

impl Default for BinaryOperator {
    /// The default operator.
    fn default() -> (r: Self)
        ensures
            r == BinaryOperator::EQUAL,
    {
        BinaryOperator::EQUAL
    }
}

impl Default for BoolCategory {
    /// The default category.
    fn default() -> (r: Self)
        ensures
            r == BoolCategory::BOOL,
    {
        BoolCategory::BOOL
    }
}

impl Default for BoolType {
    /// The default node value: the false literal.
    fn default() -> (r: Self)
        ensures
            r@ == BoolTypeV::BOOL(false),
    {
        BoolType::BOOL(false)
    }
}

impl Default for BoolNode {
    /// The default node: a childless false literal.
    fn default() -> (r: Self)
        ensures
            r@ == (BoolNodeV {
                value: BoolTypeV::BOOL(false),
                left: Seq::empty(),
                right: Seq::empty(),
            }),
    {
        let r = BoolNode { value: BoolType::BOOL(false), left: Vec::new(), right: Vec::new() };
        proof {
            assert(r@.left =~= Seq::<BoolNodeV>::empty());
            assert(r@.right =~= Seq::<BoolNodeV>::empty());
        }
        r
    }
}

impl Default for BooleanExpr {
    /// The default predicate: a default root node.
    fn default() -> (r: Self)
        ensures
            r@ == (BoolNodeV {
                value: BoolTypeV::BOOL(false),
                left: Seq::empty(),
                right: Seq::empty(),
            }),
    {
        BooleanExpr { root: BoolNode::default() }
    }
}

impl Default for BinaryValue {
    /// The default operand: no bytes.
    fn default() -> (r: Self)
        ensures
            r@ == Seq::<u8>::empty(),
    {
        BinaryValue { t: Vec::new() }
    }
}

impl Default for ID {
    /// The default name: the empty string.
    fn default() -> (r: Self)
        ensures
            r@ == Seq::<char>::empty(),
    {
        ID { t: String::new() }
    }
}

impl Default for Select {
    /// The default projection: no property names.
    fn default() -> (r: Self)
        ensures
            r@ == Seq::<Seq<char>>::empty(),
    {
        let r = Select { props: Vec::new() };
        proof {
            assert(r@ =~= Seq::<Seq<char>>::empty());
        }
        r
    }
}

impl Default for Filter {
    /// The default filter: a default predicate.
    fn default() -> (r: Self)
        ensures
            r@ == (BoolNodeV {
                value: BoolTypeV::BOOL(false),
                left: Seq::empty(),
                right: Seq::empty(),
            }),
    {
        Filter { expression: BooleanExpr::default() }
    }
}

impl Default for Insert {
    /// The default insert: an empty table name and no row bytes.
    fn default() -> (r: Self)
        ensures
            r@ == (InsertV { table: Seq::empty(), data: Seq::empty() }),
    {
        Insert { table: String::new(), data: Vec::new() }
    }
}

impl Default for OpType {
    /// The default operation kind.
    fn default() -> (r: Self)
        ensures
            r == OpType::SELECT,
    {
        OpType::SELECT
    }
}

impl Default for Op {
    /// The default operation: an empty projection.
    fn default() -> (r: Self)
        ensures
            r@ == OpV::SELECT(Seq::empty()),
    {
        Op::SELECT(Select::default())
    }
}

impl Default for Query {
    /// The default query: an empty source name and no operations, the
    /// identity over the empty table name.
    fn default() -> (r: Self)
        ensures
            r@ == (QueryV { source: Seq::empty(), operations: Seq::empty() }),
    {
        let r = Query { source: String::new(), operations: Vec::new() };
        proof {
            assert(r@.operations =~= Seq::<OpV>::empty());
        }
        r
    }
}

/// The model of a childless identifier leaf.
pub open spec fn ident_leaf(name: Seq<char>) -> BoolNodeV {
    BoolNodeV { value: BoolTypeV::IDENT(name), left: Seq::empty(), right: Seq::empty() }
}

/// Build the operation list of one filter comparing two identifiers for
/// equality: an equality operator node with the left and right identifier
/// leaves as its children.
pub fn filter_eq(left: String, right: String) -> (r: Vec<Op>)
    ensures
        r@.len() == 1,
        r@[0]@ == OpV::FILTER(
            BoolNodeV {
                value: BoolTypeV::OP(BinaryOperator::EQUAL),
                left: seq![ident_leaf(left@)],
                right: seq![ident_leaf(right@)],
            },
        ),
{
    let ghost left_chars = left@;
    let ghost right_chars = right@;
    let left_node = BoolNode { value: BoolType::IDENT(left), left: Vec::new(), right: Vec::new() };
    let right_node = BoolNode {
        value: BoolType::IDENT(right),
        left: Vec::new(),
        right: Vec::new(),
    };
    proof {
        assert(left_node@.left =~= Seq::<BoolNodeV>::empty());
        assert(left_node@.right =~= Seq::<BoolNodeV>::empty());
        assert(right_node@.left =~= Seq::<BoolNodeV>::empty());
        assert(right_node@.right =~= Seq::<BoolNodeV>::empty());
        assert(left_node@ == ident_leaf(left_chars));
        assert(right_node@ == ident_leaf(right_chars));
    }
    let mut left_children: Vec<BoolNode> = Vec::new();
    left_children.push(left_node);
    let mut right_children: Vec<BoolNode> = Vec::new();
    right_children.push(right_node);
    let root = BoolNode {
        value: BoolType::OP(BinaryOperator::EQUAL),
        left: left_children,
        right: right_children,
    };
    proof {
        lemma_nodes_view(root.left@);
        lemma_nodes_view(root.right@);
        assert(root@.left =~= seq![ident_leaf(left_chars)]);
        assert(root@.right =~= seq![ident_leaf(right_chars)]);
    }
    let op = Op::FILTER(Filter { expression: BooleanExpr { root } });
    let mut r: Vec<Op> = Vec::new();
    r.push(op);
    r
}

/// Round-trip law for operators.
pub proof fn lemma_bin_op_round_trip(o: BinaryOperator, rest: Seq<u8>)
    ensures
        dec_bin_op(enc_bin_op(o) + rest) == Ok::<(BinaryOperator, int), CodecError>((o, 4)),
        enc_bin_op(o).len() == 4,
        (enc_bin_op(o) + rest).skip(4) == rest,
{
    lemma_u32_round_trip(o.spec_ordinal(), rest);
}

/// Round-trip law for node values.
pub proof fn lemma_bool_type_round_trip(t: BoolTypeV, rest: Seq<u8>)
    requires
        bool_type_wf(t),
    ensures
        dec_bool_type(enc_bool_type(t) + rest) == Ok::<(BoolTypeV, int), CodecError>(
            (t, enc_bool_type(t).len() as int),
        ),
{
    match t {
        BoolTypeV::BOOL(b) => {
            let tail = enc_bool(b) + rest;
            assert(enc_bool_type(t) + rest =~= enc_u32(0) + tail);
            lemma_u32_round_trip(0, tail);
            lemma_bool_round_trip(b, rest);
        },
        BoolTypeV::IDENT(name) => {
            let tail = enc_str(name) + rest;
            assert(enc_bool_type(t) + rest =~= enc_u32(1) + tail);
            lemma_u32_round_trip(1, tail);
            lemma_str_round_trip(name, spec_var_max(), rest);
        },
        BoolTypeV::OP(o) => {
            let tail = enc_bin_op(o) + rest;
            assert(enc_bool_type(t) + rest =~= enc_u32(2) + tail);
            lemma_u32_round_trip(2, tail);
            lemma_bin_op_round_trip(o, rest);
        },
        BoolTypeV::VALUE(b) => {
            let tail = enc_bytes(b) + rest;
            assert(enc_bool_type(t) + rest =~= enc_u32(3) + tail);
            lemma_u32_round_trip(3, tail);
            lemma_bytes_round_trip(b, spec_var_max(), rest);
        },
    }
}

/// Round-trip law for tree nodes: decoding the encoding of a tree within
/// its field bounds, with any recursion allowance at least its height,
/// yields the tree itself and consumes exactly its encoding.
pub proof fn lemma_node_round_trip(v: BoolNodeV, depth: nat, rest: Seq<u8>)
    requires
        node_wf(v),
        depth >= node_height(v),
    ensures
        dec_node(enc_node(v) + rest, depth) == Ok::<(BoolNodeV, int), CodecError>(
            (v, enc_node(v).len() as int),
        ),
    decreases v, 0int,
{
    let e1 = enc_bool_type(v.value);
    let e2 = enc_children(v.left);
    let e3 = enc_children(v.right);
    let s = enc_node(v) + rest;
    assert(s =~= e1 + (e2 + (e3 + rest)));
    lemma_bool_type_round_trip(v.value, e2 + (e3 + rest));
    assert(s.skip(e1.len() as int) =~= e2 + (e3 + rest));
    lemma_children_round_trip(v.left, (depth - 1) as nat, e3 + rest);
    assert(s.skip(e1.len() + e2.len() as int) =~= e3 + rest);
    lemma_children_round_trip(v.right, (depth - 1) as nat, rest);
    assert(v == (BoolNodeV { value: v.value, left: v.left, right: v.right }));
}

/// Round-trip law for child lists of at most one node.
pub proof fn lemma_children_round_trip(s: Seq<BoolNodeV>, depth: nat, rest: Seq<u8>)
    requires
        s.len() <= 1,
        node_list_wf(s),
        depth >= node_list_height(s),
    ensures
        dec_children(enc_children(s) + rest, depth) == Ok::<(Seq<BoolNodeV>, int), CodecError>(
            (s, enc_children(s).len() as int),
        ),
    decreases s, 1int,
{
    if s.len() == 0 {
        assert(enc_node_list(s) == Seq::<u8>::empty());
        assert(enc_children(s) + rest =~= enc_u32(0) + rest);
        lemma_u32_round_trip(0, rest);
        assert(s =~= Seq::<BoolNodeV>::empty());
        assert(enc_children(s).len() == 4) by {
            lemma_enc_u32_len(0);
            assert(enc_children(s) =~= enc_u32(0));
        }
    } else {
        let x = s[0];
        assert(s.skip(1) =~= Seq::<BoolNodeV>::empty());
        assert(enc_node_list(s.skip(1)) == Seq::<u8>::empty());
        assert(enc_node_list(s) == enc_node(x) + enc_node_list(s.skip(1)));
        assert(enc_children(s) + rest =~= enc_u32(1) + (enc_node(x) + rest));
        lemma_u32_round_trip(1, enc_node(x) + rest);
        lemma_node_round_trip(x, depth, rest);
        assert(seq![x] =~= s);
        assert(enc_children(s).len() == 4 + enc_node(x).len()) by {
            lemma_enc_u32_len(1);
            assert(enc_children(s) =~= enc_u32(1) + enc_node(x));
        }
    }
}

/// Round-trip law for lists of property names within their field bounds.
pub proof fn lemma_id_list_round_trip(ts: Seq<Seq<char>>, rest: Seq<u8>)
    requires
        forall|i: int| 0 <= i < ts.len() ==> str_wf(#[trigger] ts[i]),
    ensures
        dec_id_list(enc_id_list(ts) + rest, ts.len() as nat) == Ok::<
            (Seq<Seq<char>>, int),
            CodecError,
        >((ts, enc_id_list(ts).len() as int)),
    decreases ts,
{
    if ts.len() == 0 {
        assert(enc_id_list(ts) + rest =~= rest);
        assert(ts =~= Seq::<Seq<char>>::empty());
    } else {
        let h = ts[0];
        assert(str_wf(ts[0]));
        assert(enc_id_list(ts) == enc_id(h) + enc_id_list(ts.skip(1)));
        assert(enc_id_list(ts) + rest =~= enc_str(h) + (enc_id_list(ts.skip(1)) + rest));
        lemma_str_round_trip(h, spec_var_max(), enc_id_list(ts.skip(1)) + rest);
        assert forall|i: int| 0 <= i < ts.skip(1).len() implies str_wf(#[trigger] ts.skip(1)[i]) by {
            assert(ts.skip(1)[i] == ts[i + 1]);
        }
        lemma_id_list_round_trip(ts.skip(1), rest);
        assert(seq![h] + ts.skip(1) =~= ts);
    }
}

/// Round-trip law for projections within their field bounds.
pub proof fn lemma_select_round_trip(props: Seq<Seq<char>>, rest: Seq<u8>)
    requires
        select_wf(props),
    ensures
        dec_select(enc_select(props) + rest) == Ok::<(Seq<Seq<char>>, int), CodecError>(
            (props, enc_select(props).len() as int),
        ),
{
    let tail = enc_id_list(props) + rest;
    assert(enc_select(props) + rest =~= enc_u32(props.len() as u32) + tail);
    lemma_u32_round_trip(props.len() as u32, tail);
    lemma_id_list_round_trip(props, rest);
}

/// Round-trip law for inserts within their field bounds.
pub proof fn lemma_insert_round_trip(v: InsertV, rest: Seq<u8>)
    requires
        insert_wf(v),
    ensures
        dec_insert(enc_insert(v) + rest) == Ok::<(InsertV, int), CodecError>(
            (v, enc_insert(v).len() as int),
        ),
{
    let tail = enc_bytes(v.data) + rest;
    assert(enc_insert(v) + rest =~= enc_str(v.table) + tail);
    lemma_str_round_trip(v.table, spec_var_max(), tail);
    assert((enc_str(v.table) + tail).skip(enc_str(v.table).len() as int) == tail);
    lemma_bytes_round_trip(v.data, spec_var_max(), rest);
    assert(v == (InsertV { table: v.table, data: v.data }));
}

/// Round-trip law for operations within their field bounds.
pub proof fn lemma_op_round_trip(o: OpV, depth: nat, rest: Seq<u8>)
    requires
        op_wf(o),
        depth >= op_height(o),
    ensures
        dec_op(enc_op(o) + rest, depth) == Ok::<(OpV, int), CodecError>(
            (o, enc_op(o).len() as int),
        ),
{
    match o {
        OpV::SELECT(props) => {
            let tail = enc_select(props) + rest;
            assert(enc_op(o) + rest =~= enc_u32(0) + tail);
            lemma_u32_round_trip(0, tail);
            lemma_select_round_trip(props, rest);
        },
        OpV::FILTER(root) => {
            let tail = enc_node(root) + rest;
            assert(enc_op(o) + rest =~= enc_u32(1) + tail);
            lemma_u32_round_trip(1, tail);
            lemma_node_round_trip(root, depth, rest);
        },
    }
}

/// Round-trip law for lists of operations within their field bounds.
pub proof fn lemma_op_list_round_trip(os: Seq<OpV>, depth: nat, rest: Seq<u8>)
    requires
        forall|i: int| 0 <= i < os.len() ==> op_wf(#[trigger] os[i]),
        depth >= ops_height(os),
    ensures
        dec_op_list(enc_op_list(os) + rest, os.len() as nat, depth) == Ok::<
            (Seq<OpV>, int),
            CodecError,
        >((os, enc_op_list(os).len() as int)),
    decreases os,
{
    if os.len() == 0 {
        assert(enc_op_list(os) + rest =~= rest);
        assert(os =~= Seq::<OpV>::empty());
    } else {
        let h = os[0];
        assert(op_wf(os[0]));
        assert(enc_op_list(os) == enc_op(h) + enc_op_list(os.skip(1)));
        assert(enc_op_list(os) + rest =~= enc_op(h) + (enc_op_list(os.skip(1)) + rest));
        assert(ops_height(os) == nat_max(op_height(h), ops_height(os.skip(1))));
        lemma_op_round_trip(h, depth, enc_op_list(os.skip(1)) + rest);
        assert((enc_op(h) + (enc_op_list(os.skip(1)) + rest)).skip(enc_op(h).len() as int)
            =~= enc_op_list(os.skip(1)) + rest);
        assert forall|i: int| 0 <= i < os.skip(1).len() implies op_wf(#[trigger] os.skip(1)[i]) by {
            assert(os.skip(1)[i] == os[i + 1]);
        }
        lemma_op_list_round_trip(os.skip(1), depth, rest);
        assert(seq![h] + os.skip(1) =~= os);
    }
}

/// Round-trip law for queries: decoding the encoding of a query within its
/// field bounds, with any recursion allowance at least the height of its
/// deepest predicate tree, yields the query itself and consumes exactly its
/// encoding.
pub proof fn lemma_query_round_trip(q: QueryV, depth: nat, rest: Seq<u8>)
    requires
        query_wf(q),
        depth >= query_height(q),
    ensures
        dec_query(enc_query(q) + rest, depth) == Ok::<(QueryV, int), CodecError>(
            (q, enc_query(q).len() as int),
        ),
{
    let e1 = enc_str(q.source);
    let e2 = enc_u32(q.operations.len() as u32);
    let e3 = enc_op_list(q.operations);
    let s = enc_query(q) + rest;
    assert(s =~= e1 + (e2 + (e3 + rest)));
    lemma_str_round_trip(q.source, spec_source_max(), e2 + (e3 + rest));
    assert(s.skip(e1.len() as int) =~= e2 + (e3 + rest));
    lemma_u32_round_trip(q.operations.len() as u32, e3 + rest);
    assert(s.skip(e1.len() + e2.len() as int) =~= e3 + rest);
    lemma_op_list_round_trip(q.operations, depth, rest);
    assert(q == (QueryV { source: q.source, operations: q.operations }));
}

/// Discriminant exhaustiveness for node values: a discriminant past the
/// last category decodes to `UnknownVariant`, never to a default variant.
pub proof fn lemma_bool_type_unknown_discriminant(d: u32, rest: Seq<u8>)
    requires
        d > 3,
    ensures
        dec_bool_type(enc_u32(d) + rest) == Err::<(BoolTypeV, int), CodecError>(
            CodecError::UnknownVariant,
        ),
{
    lemma_u32_round_trip(d, rest);
}

/// Discriminant exhaustiveness for operators.
pub proof fn lemma_bin_op_unknown_discriminant(d: u32, rest: Seq<u8>)
    requires
        d > 4,
    ensures
        dec_bin_op(enc_u32(d) + rest) == Err::<(BinaryOperator, int), CodecError>(
            CodecError::UnknownVariant,
        ),
{
    lemma_u32_round_trip(d, rest);
}

/// Discriminant exhaustiveness for operations.
pub proof fn lemma_op_unknown_discriminant(d: u32, depth: nat, rest: Seq<u8>)
    requires
        d > 1,
    ensures
        dec_op(enc_u32(d) + rest, depth) == Err::<(OpV, int), CodecError>(
            CodecError::UnknownVariant,
        ),
{
    lemma_u32_round_trip(d, rest);
}

/// Truncation safety for node values: any proper prefix of a valid
/// encoding decodes to `UnexpectedEndOfInput`, never to an abort.
pub proof fn lemma_bool_type_truncated(t: BoolTypeV, s: Seq<u8>)
    requires
        bool_type_wf(t),
        s.len() < enc_bool_type(t).len(),
        s == enc_bool_type(t).take(s.len() as int),
    ensures
        dec_bool_type(s) == Err::<(BoolTypeV, int), CodecError>(CodecError::UnexpectedEndOfInput),
{
    lemma_enc_u32_len(0);
    lemma_enc_u32_len(1);
    lemma_enc_u32_len(2);
    lemma_enc_u32_len(3);
    if s.len() < 4 {
        // the discriminant itself is cut short
    } else {
        match t {
            BoolTypeV::BOOL(b) => {
                lemma_prefix_beyond(enc_u32(0), enc_bool(b), s);
                lemma_u32_round_trip(0, s.skip(4));
                lemma_bool_round_trip(b, Seq::empty());
            },
            BoolTypeV::IDENT(name) => {
                lemma_prefix_beyond(enc_u32(1), enc_str(name), s);
                lemma_u32_round_trip(1, s.skip(4));
                lemma_str_truncated(name, spec_var_max(), s.skip(4));
            },
            BoolTypeV::OP(o) => {
                lemma_prefix_beyond(enc_u32(2), enc_bin_op(o), s);
                lemma_u32_round_trip(2, s.skip(4));
                lemma_enc_u32_len(o.spec_ordinal());
            },
            BoolTypeV::VALUE(b) => {
                lemma_prefix_beyond(enc_u32(3), enc_bytes(b), s);
                lemma_u32_round_trip(3, s.skip(4));
                lemma_bytes_truncated(b, spec_var_max(), s.skip(4));
            },
        }
    }
}

/// Truncation safety for tree nodes.
pub proof fn lemma_node_truncated(v: BoolNodeV, depth: nat, s: Seq<u8>)
    requires
        node_wf(v),
        depth >= node_height(v),
        s.len() < enc_node(v).len(),
        s == enc_node(v).take(s.len() as int),
    ensures
        dec_node(s, depth) == Err::<(BoolNodeV, int), CodecError>(
            CodecError::UnexpectedEndOfInput,
        ),
    decreases v, 0int,
{
    let e1 = enc_bool_type(v.value);
    let e2 = enc_children(v.left);
    let e3 = enc_children(v.right);
    assert(enc_node(v) =~= e1 + (e2 + e3));
    assert(e2.len() >= 4) by {
        lemma_enc_u32_len(v.left.len() as u32);
    }
    assert(e3.len() >= 4) by {
        lemma_enc_u32_len(v.right.len() as u32);
    }
    if s.len() < e1.len() {
        lemma_prefix_within(e1, e2 + e3, s);
        lemma_bool_type_truncated(v.value, s);
    } else {
        lemma_prefix_beyond(e1, e2 + e3, s);
        let s2 = s.skip(e1.len() as int);
        lemma_bool_type_round_trip(v.value, s2);
        if s2.len() < e2.len() {
            lemma_prefix_within(e2, e3, s2);
            lemma_children_truncated(v.left, (depth - 1) as nat, s2);
        } else {
            lemma_prefix_beyond(e2, e3, s2);
            let s3 = s2.skip(e2.len() as int);
            assert(s.skip(e1.len() + e2.len() as int) =~= s3);
            lemma_children_round_trip(v.left, (depth - 1) as nat, s3);
            lemma_children_truncated(v.right, (depth - 1) as nat, s3);
        }
    }
}

/// Truncation safety for child lists.
pub proof fn lemma_children_truncated(cs: Seq<BoolNodeV>, depth: nat, s: Seq<u8>)
    requires
        cs.len() <= 1,
        node_list_wf(cs),
        depth >= node_list_height(cs),
        s.len() < enc_children(cs).len(),
        s == enc_children(cs).take(s.len() as int),
    ensures
        dec_children(s, depth) == Err::<(Seq<BoolNodeV>, int), CodecError>(
            CodecError::UnexpectedEndOfInput,
        ),
    decreases cs, 1int,
{
    lemma_enc_u32_len(cs.len() as u32);
    if cs.len() == 0 {
        assert(enc_node_list(cs) == Seq::<u8>::empty());
        assert(enc_children(cs).len() == 4);
        // only the length prefix exists, and it is cut short
    } else {
        let x = cs[0];
        assert(cs.skip(1) =~= Seq::<BoolNodeV>::empty());
        assert(enc_node_list(cs) == enc_node(x) + enc_node_list(cs.skip(1)));
        assert(enc_node_list(cs) =~= enc_node(x));
        if s.len() < 4 {
            // the length prefix itself is cut short
        } else {
            lemma_prefix_beyond(enc_u32(1), enc_node_list(cs), s);
            lemma_u32_round_trip(1, s.skip(4));
            lemma_node_truncated(x, depth, s.skip(4));
        }
    }
}

/// Truncation safety for lists of property names.
pub proof fn lemma_id_list_truncated(ts: Seq<Seq<char>>, s: Seq<u8>)
    requires
        forall|i: int| 0 <= i < ts.len() ==> str_wf(#[trigger] ts[i]),
        s.len() < enc_id_list(ts).len(),
        s == enc_id_list(ts).take(s.len() as int),
    ensures
        dec_id_list(s, ts.len() as nat) == Err::<(Seq<Seq<char>>, int), CodecError>(
            CodecError::UnexpectedEndOfInput,
        ),
    decreases ts,
{
    assert(ts.len() > 0);
    let h = ts[0];
    assert(str_wf(ts[0]));
    assert(enc_id_list(ts) == enc_id(h) + enc_id_list(ts.skip(1)));
    assert forall|i: int| 0 <= i < ts.skip(1).len() implies str_wf(#[trigger] ts.skip(1)[i]) by {
        assert(ts.skip(1)[i] == ts[i + 1]);
    }
    if s.len() < enc_str(h).len() {
        lemma_prefix_within(enc_str(h), enc_id_list(ts.skip(1)), s);
        lemma_str_truncated(h, spec_var_max(), s);
    } else {
        lemma_prefix_beyond(enc_str(h), enc_id_list(ts.skip(1)), s);
        let s2 = s.skip(enc_str(h).len() as int);
        lemma_str_round_trip(h, spec_var_max(), s2);
        lemma_id_list_truncated(ts.skip(1), s2);
    }
}

/// Truncation safety for projections.
pub proof fn lemma_select_truncated(props: Seq<Seq<char>>, s: Seq<u8>)
    requires
        select_wf(props),
        s.len() < enc_select(props).len(),
        s == enc_select(props).take(s.len() as int),
    ensures
        dec_select(s) == Err::<(Seq<Seq<char>>, int), CodecError>(
            CodecError::UnexpectedEndOfInput,
        ),
{
    lemma_enc_u32_len(props.len() as u32);
    if s.len() < 4 {
        // the count prefix itself is cut short
    } else {
        lemma_prefix_beyond(enc_u32(props.len() as u32), enc_id_list(props), s);
        lemma_u32_round_trip(props.len() as u32, s.skip(4));
        lemma_id_list_truncated(props, s.skip(4));
    }
}

/// Truncation safety for inserts.
pub proof fn lemma_insert_truncated(v: InsertV, s: Seq<u8>)
    requires
        insert_wf(v),
        s.len() < enc_insert(v).len(),
        s == enc_insert(v).take(s.len() as int),
    ensures
        dec_insert(s) == Err::<(InsertV, int), CodecError>(CodecError::UnexpectedEndOfInput),
{
    let e1 = enc_str(v.table);
    let e2 = enc_bytes(v.data);
    if s.len() < e1.len() {
        lemma_prefix_within(e1, e2, s);
        lemma_str_truncated(v.table, spec_var_max(), s);
    } else {
        lemma_prefix_beyond(e1, e2, s);
        let s2 = s.skip(e1.len() as int);
        lemma_str_round_trip(v.table, spec_var_max(), s2);
        lemma_bytes_truncated(v.data, spec_var_max(), s2);
    }
}

/// Truncation safety for operations.
pub proof fn lemma_op_truncated(o: OpV, depth: nat, s: Seq<u8>)
    requires
        op_wf(o),
        depth >= op_height(o),
        s.len() < enc_op(o).len(),
        s == enc_op(o).take(s.len() as int),
    ensures
        dec_op(s, depth) == Err::<(OpV, int), CodecError>(CodecError::UnexpectedEndOfInput),
{
    lemma_enc_u32_len(0);
    lemma_enc_u32_len(1);
    if s.len() < 4 {
        // the discriminant itself is cut short
    } else {
        match o {
            OpV::SELECT(props) => {
                lemma_prefix_beyond(enc_u32(0), enc_select(props), s);
                lemma_u32_round_trip(0, s.skip(4));
                lemma_select_truncated(props, s.skip(4));
            },
            OpV::FILTER(root) => {
                lemma_prefix_beyond(enc_u32(1), enc_node(root), s);
                lemma_u32_round_trip(1, s.skip(4));
                lemma_node_truncated(root, depth, s.skip(4));
            },
        }
    }
}

/// Truncation safety for lists of operations.
pub proof fn lemma_op_list_truncated(os: Seq<OpV>, depth: nat, s: Seq<u8>)
    requires
        forall|i: int| 0 <= i < os.len() ==> op_wf(#[trigger] os[i]),
        depth >= ops_height(os),
        s.len() < enc_op_list(os).len(),
        s == enc_op_list(os).take(s.len() as int),
    ensures
        dec_op_list(s, os.len() as nat, depth) == Err::<(Seq<OpV>, int), CodecError>(
            CodecError::UnexpectedEndOfInput,
        ),
    decreases os,
{
    assert(os.len() > 0);
    let h = os[0];
    assert(op_wf(os[0]));
    assert(enc_op_list(os) == enc_op(h) + enc_op_list(os.skip(1)));
    assert(ops_height(os) == nat_max(op_height(h), ops_height(os.skip(1))));
    assert forall|i: int| 0 <= i < os.skip(1).len() implies op_wf(#[trigger] os.skip(1)[i]) by {
        assert(os.skip(1)[i] == os[i + 1]);
    }
    if s.len() < enc_op(h).len() {
        lemma_prefix_within(enc_op(h), enc_op_list(os.skip(1)), s);
        lemma_op_truncated(h, depth, s);
    } else {
        lemma_prefix_beyond(enc_op(h), enc_op_list(os.skip(1)), s);
        let s2 = s.skip(enc_op(h).len() as int);
        lemma_op_round_trip(h, depth, s2);
        lemma_op_list_truncated(os.skip(1), depth, s2);
    }
}

/// Truncation safety for queries: decoding any proper prefix of a valid
/// query encoding never aborts; it reports `UnexpectedEndOfInput`.
pub proof fn lemma_query_truncated(q: QueryV, depth: nat, s: Seq<u8>)
    requires
        query_wf(q),
        depth >= query_height(q),
        s.len() < enc_query(q).len(),
        s == enc_query(q).take(s.len() as int),
    ensures
        dec_query(s, depth) == Err::<(QueryV, int), CodecError>(CodecError::UnexpectedEndOfInput),
{
    let e1 = enc_str(q.source);
    let e2 = enc_u32(q.operations.len() as u32);
    let e3 = enc_op_list(q.operations);
    lemma_enc_u32_len(q.operations.len() as u32);
    assert(enc_query(q) =~= e1 + (e2 + e3));
    if s.len() < e1.len() {
        lemma_prefix_within(e1, e2 + e3, s);
        lemma_str_truncated(q.source, spec_source_max(), s);
    } else {
        lemma_prefix_beyond(e1, e2 + e3, s);
        let s2 = s.skip(e1.len() as int);
        lemma_str_round_trip(q.source, spec_source_max(), s2);
        if s2.len() < 4 {
            // the operation count itself is cut short
        } else {
            lemma_prefix_beyond(e2, e3, s2);
            let s3 = s2.skip(4);
            assert(s.skip(e1.len() + 4int) =~= s3);
            lemma_u32_round_trip(q.operations.len() as u32, s3);
            lemma_op_list_truncated(q.operations, depth, s3);
        }
    }
}

/// The arity invariant survives a round trip: a tree whose operator nodes
/// have exactly one left and one right child, and whose other nodes have
/// none, decodes back to the exact same structure; in particular a leaf
/// decodes with zero children.
pub proof fn lemma_node_arity_round_trip(v: BoolNodeV, depth: nat, rest: Seq<u8>)
    requires
        node_wf(v),
        node_arity_ok(v),
        depth >= node_height(v),
    ensures
        dec_node(enc_node(v) + rest, depth) == Ok::<(BoolNodeV, int), CodecError>(
            (v, enc_node(v).len() as int),
        ),
        v.value is OP ==> v.left.len() == 1 && v.right.len() == 1,
        !(v.value is OP) ==> v.left.len() == 0 && v.right.len() == 0,
{
    lemma_node_round_trip(v, depth, rest);
}

} // verus!
