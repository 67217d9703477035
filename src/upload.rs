//! From decoded rows to graph mutations: entity-to-factor edges whose weights clear a
//! threshold relative to the row's largest weight, and labelled factor nodes.
use vstd::prelude::*;

use crate::error::{Error, ErrorKind};
use crate::file_info::{factor_prefix, is_factor_token, FileKind};
use crate::number::{dec_lt, number_of, number_parts, parse_number, Decimal, Number};
use crate::text::{
    chars_from, chars_of, join_chars, join_seq, starts_with_chars, string_of, string_views, views,
};
use crate::record::{Layout, Record};
use crate::tsv::{RowBuilder, RowBuilderMaker};

verus! {

/// The value of the last field named `name`, if any.
pub open spec fn last_value(fields: Seq<(Seq<char>, Seq<char>)>, name: Seq<char>) -> Option<
    Seq<char>,
>
    decreases fields.len(),
{
    if fields.len() == 0 {
        None
    } else if fields.last().0 == name {
        Some(fields.last().1)
    } else {
        last_value(fields.drop_last(), name)
    }
}

/// The weight columns of a row of entity class `class`: each field, other than the entity
/// column, whose name starts with the factor prefix, as (name without prefix, number).
pub open spec fn weight_fields(fields: Seq<(Seq<char>, Seq<char>)>, class: Seq<char>) -> Seq<
    (Seq<char>, Number),
>
    decreases fields.len(),
{
    if fields.len() == 0 {
        Seq::<(Seq<char>, Number)>::empty()
    } else {
        let prev = weight_fields(fields.drop_last(), class);
        let (name, value) = fields.last();
        if name != class && is_factor_token(name) {
            prev.push((name.skip(factor_prefix().len() as int), number_of(value)))
        } else {
            prev
        }
    }
}

pub open spec fn zero() -> Decimal {
    Decimal { negative: false, mantissa: 0, exponent: 0 }
}

/// The largest of zero and the weights that are numbers.
pub open spec fn max_weight(ws: Seq<Number>) -> Decimal
    decreases ws.len(),
{
    if ws.len() == 0 {
        zero()
    } else {
        let m = max_weight(ws.drop_last());
        match ws.last() {
            Number::Finite(d) => if dec_lt(m, d) {
                d
            } else {
                m
            },
            Number::NotANumber => m,
        }
    }
}

/// The exponent range of numbers read from text.
pub open spec fn read_range(d: Decimal) -> bool {
    -3_000_000 <= d.exponent <= 3_000_000
}

pub open spec fn weights_wf(ws: Seq<Number>) -> bool {
    forall|i: int| 0 <= i < ws.len() ==> (#[trigger] ws[i] matches Number::Finite(d) ==> read_range(d))
}

proof fn lemma_number_wf(s: Seq<char>)
    ensures
        number_of(s) matches Number::Finite(d) ==> read_range(d),
{
    if let Some((negative, int_digits, frac_digits, exp_negative, exp_digits)) = number_parts(s) {
        let all = int_digits + frac_digits;
        crate::number::lemma_leading_zeros_le(all);
    }
}

proof fn lemma_max_weight_wf(ws: Seq<Number>)
    requires
        weights_wf(ws),
    ensures
        read_range(max_weight(ws)),
    decreases ws.len(),
{
    if ws.len() > 0 {
        assert(weights_wf(ws.drop_last())) by {
            assert forall|i: int| 0 <= i < ws.drop_last().len() implies (
            #[trigger] ws.drop_last()[i] matches Number::Finite(d) ==> read_range(d)) by {
                assert(ws.drop_last()[i] == ws[i]);
            }
        }
        lemma_max_weight_wf(ws.drop_last());
        assert(ws.last() == ws[ws.len() - 1]);
    }
}

/// A row of an entity-to-factor weight table.
pub struct EntityRow {
    pub entity: String,
    pub subkeys: Vec<String>,
    pub weights: Vec<Number>,
    pub weight_max: Decimal,
}

/// Makes builders for rows whose entity is in the column named `entity_class`.
pub struct EntityUploadEaterMaker {
    pub entity_class: String,
}

impl EntityUploadEaterMaker {
    pub fn new(entity_class: String) -> (r: EntityUploadEaterMaker)
        ensures
            r.entity_class@ == entity_class@,
    {
        EntityUploadEaterMaker { entity_class }
    }
}

pub struct EntityUploadEater {
    pub entity_class: String,
    pub entity: Option<String>,
    pub subkeys: Vec<String>,
    pub weights: Vec<Number>,
    pub fed: Ghost<Seq<(Seq<char>, Seq<char>)>>,
}

impl RowBuilderMaker for EntityUploadEaterMaker {
    type Builder = EntityUploadEater;

    open spec fn setting(&self) -> Seq<char> {
        self.entity_class@
    }

    fn make(&self) -> (b: EntityUploadEater) {
        let b = EntityUploadEater {
            entity_class: self.entity_class.clone(),
            entity: None,
            subkeys: Vec::new(),
            weights: Vec::new(),
            fed: Ghost(Seq::empty()),
        };
        let ghost ws = weight_fields(b.fed@, b.entity_class@);
        assert(ws =~= Seq::<(Seq<char>, Number)>::empty());
        assert(string_views(b.subkeys@) =~= ws.map_values(|p: (Seq<char>, Number)| p.0));
        assert(b.weights@ =~= ws.map_values(|p: (Seq<char>, Number)| p.1));
        b
    }
}

impl RowBuilder for EntityUploadEater {
    type Row = EntityRow;

    type Setting = Seq<char>;

    open spec fn setting(&self) -> Seq<char> {
        self.entity_class@
    }

    open spec fn fed(&self) -> Seq<(Seq<char>, Seq<char>)> {
        self.fed@
    }

    open spec fn wf(&self) -> bool {
        let ws = weight_fields(self.fed@, self.entity_class@);
        &&& (match self.entity {
            Some(e) => last_value(self.fed@, self.entity_class@) == Some(e@),
            None => last_value(self.fed@, self.entity_class@) is None,
        })
        &&& string_views(self.subkeys@) == ws.map_values(|p: (Seq<char>, Number)| p.0)
        &&& self.weights@ == ws.map_values(|p: (Seq<char>, Number)| p.1)
        &&& weights_wf(self.weights@)
    }

    open spec fn completes(setting: Seq<char>, fields: Seq<(Seq<char>, Seq<char>)>) -> bool {
        last_value(fields, setting) is Some
    }

    open spec fn missing(setting: Seq<char>, fields: Seq<(Seq<char>, Seq<char>)>) -> Seq<char> {
        setting
    }

    open spec fn yields(
        setting: Seq<char>,
        fields: Seq<(Seq<char>, Seq<char>)>,
        row: EntityRow,
    ) -> bool {
        let ws = weight_fields(fields, setting);
        &&& last_value(fields, setting) == Some(row.entity@)
        &&& string_views(row.subkeys@) == ws.map_values(|p: (Seq<char>, Number)| p.0)
        &&& row.weights@ == ws.map_values(|p: (Seq<char>, Number)| p.1)
        &&& row.weight_max == max_weight(row.weights@)
        &&& weights_wf(row.weights@)
        &&& row.subkeys@.len() == row.weights@.len()
    }

    fn field(&mut self, name: &str, value: &str) {
        let ghost class = self.entity_class@;
        let ghost ws0 = weight_fields(self.fed@, class);
        let ghost fed1 = self.fed@.push((name@, value@));
        assert(fed1.drop_last() =~= self.fed@);
        let owned_name = name_to_string(name);
        if self.entity_class == owned_name {
            self.entity = Some(name_to_string(value));
            self.fed = Ghost(fed1);
            assert(weight_fields(fed1, class) == ws0);
        } else {
            let n = chars_of(name);
            let prefix = chars_of("Factor");
            if starts_with_chars(n.as_slice(), prefix.as_slice()) {
                let sub = chars_from(n.as_slice(), prefix.len());
                let ghost s0 = string_views(self.subkeys@);
                let ghost w0 = self.weights@;
                self.subkeys.push(string_of(sub.as_slice()));
                let w = parse_number(value);
                proof {
                    lemma_number_wf(value@);
                }
                self.weights.push(w);
                assert(weights_wf(self.weights@)) by {
                    assert forall|i: int| 0 <= i < self.weights@.len() implies (
                    #[trigger] self.weights@[i] matches Number::Finite(d) ==> read_range(d)) by {
                        if i < w0.len() {
                            assert(self.weights@[i] == w0[i]);
                        }
                    }
                }
                self.fed = Ghost(fed1);
                let ghost ws1 = weight_fields(fed1, class);
                assert(ws1 == ws0.push((name@.skip(factor_prefix().len() as int), number_of(value@))));
                assert(string_views(self.subkeys@) =~= s0.push(sub@));
                assert(ws1.map_values(|p: (Seq<char>, Number)| p.0) =~= ws0.map_values(
                    |p: (Seq<char>, Number)| p.0,
                ).push(sub@));
                assert(ws1.map_values(|p: (Seq<char>, Number)| p.1) =~= ws0.map_values(
                    |p: (Seq<char>, Number)| p.1,
                ).push(number_of(value@)));
            } else {
                self.fed = Ghost(fed1);
                assert(weight_fields(fed1, class) == ws0);
            }
        }
    }

    fn finish(self) -> (r: Result<EntityRow, Error>) {
        let EntityUploadEater { entity_class, entity, subkeys, weights, fed } = self;
        match entity {
            None => {
                let mut message = String::from_str("Missing ");
                message.append(entity_class.as_str());
                Err(Error::new(ErrorKind::MissingField, message))
            },
            Some(entity) => {
                let weight_max = largest_weight(&weights);
                assert(string_views(subkeys@).len() == subkeys@.len());
                Ok(EntityRow { entity, subkeys, weights, weight_max })
            },
        }
    }
}

fn name_to_string(s: &str) -> (r: String)
    ensures
        r@ == s@,
{
    s.to_owned()
}

/// The largest of zero and the weights that are numbers.
pub fn largest_weight(weights: &Vec<Number>) -> (r: Decimal)
    requires
        weights_wf(weights@),
    ensures
        r == max_weight(weights@),
        read_range(r),
{
    let mut m = Decimal { negative: false, mantissa: 0, exponent: 0 };
    let mut i: usize = 0;
    while i < weights.len()
        invariant
            i <= weights@.len(),
            weights_wf(weights@),
            m == max_weight(weights@.take(i as int)),
            read_range(m),
        decreases weights@.len() - i,
    {
        assert(weights@.take(i + 1).drop_last() =~= weights@.take(i as int));
        assert(weights@.take(i + 1).last() == weights@[i as int]);
        match weights[i] {
            Number::Finite(d) => {
                if m.less_than(&d) {
                    m = d;
                }
            },
            Number::NotANumber => {},
        }
        i = i + 1;
    }
    assert(weights@.take(weights@.len() as int) =~= weights@);
    m
}

/// The identifier of factor `subkey` of the data set with factor list `key`: the key's
/// factors and the subkey joined with underscores.
pub open spec fn factor_id_spec(key: Seq<Seq<char>>, subkey: Seq<char>) -> Seq<char> {
    join_seq(key.push(subkey), '_')
}

pub fn factor_id(key: &Vec<String>, subkey: &str) -> (r: String)
    ensures
        r@ == factor_id_spec(string_views(key@), subkey@),
{
    let mut parts: Vec<Vec<char>> = Vec::new();
    let mut i: usize = 0;
    while i < key.len()
        invariant
            i <= key@.len(),
            views(parts@) == string_views(key@).take(i as int),
        decreases key@.len() - i,
    {
        let ghost before = views(parts@);
        parts.push(chars_of(key[i].as_str()));
        assert(views(parts@) =~= before.push(key@[i as int]@));
        assert(string_views(key@).take(i + 1) =~= string_views(key@).take(i as int).push(
            key@[i as int]@,
        ));
        i = i + 1;
    }
    let ghost before = views(parts@);
    parts.push(chars_of(subkey));
    assert(views(parts@) =~= before.push(subkey@));
    assert(string_views(key@).take(key@.len() as int) =~= string_views(key@));
    join_chars(&parts, '_')
}

/// The kind of entity an edge leads from.
#[derive(Clone, Copy, Debug, PartialEq, Eq, Structural)]
pub enum EntityKind {
    Gene,
    Pheno,
}

/// A fully parameterized upsert: the operation text is fixed per variant and every value is
/// bound as a parameter.
pub enum GraphMutation {
    /// Merge the factor node `id` and set its name.
    FactorNode { id: String, name: String },
    /// Merge the entity node, the factor node and the edge between them, and set its weight.
    EntityEdge { entity: EntityKind, entity_id: String, factor_id: String, weight: Decimal },
}

pub open spec fn template_of(m: GraphMutation) -> Seq<char> {
    match m {
        GraphMutation::FactorNode { .. } => "MERGE (n:Factor { id: $id })\nSET n += { name: $name }"@,
        GraphMutation::EntityEdge { entity: EntityKind::Gene, .. } =>
            "MERGE (n1:Gene { id: $gene_id })\nMERGE (n2:Factor { id: $factor_id })\nMERGE (n1)-[e:IMPACTS]->(n2)\nSET e += { weight: $weight }"@,
        GraphMutation::EntityEdge { entity: EntityKind::Pheno, .. } =>
            "MERGE (n1:Pheno { id: $pheno_id })\nMERGE (n2:Factor { id: $factor_id })\nMERGE (n1)-[e:CONTROLS]->(n2)\nSET e += { weight: $weight }"@,
    }
}

impl GraphMutation {
    /// The operation text, whose `$` names are the bound parameters.
    pub fn template(&self) -> (r: &'static str)
        ensures
            r@ == template_of(*self),
    {
        match self {
            GraphMutation::FactorNode { .. } => "MERGE (n:Factor { id: $id })\nSET n += { name: $name }",
            GraphMutation::EntityEdge { entity: EntityKind::Gene, .. } =>
                "MERGE (n1:Gene { id: $gene_id })\nMERGE (n2:Factor { id: $factor_id })\nMERGE (n1)-[e:IMPACTS]->(n2)\nSET e += { weight: $weight }",
            GraphMutation::EntityEdge { entity: EntityKind::Pheno, .. } =>
                "MERGE (n1:Pheno { id: $pheno_id })\nMERGE (n2:Factor { id: $factor_id })\nMERGE (n1)-[e:CONTROLS]->(n2)\nSET e += { weight: $weight }",
        }
    }
}

/// `d × 10^-k`.
pub open spec fn lowered(d: Decimal, k: nat) -> Decimal {
    Decimal { negative: d.negative, mantissa: d.mantissa, exponent: (d.exponent - k) as i64 }
}

/// Whether weight `w` exceeds `max × 10^-k`.
pub open spec fn exceeds(w: Number, max: Decimal, k: nat) -> bool {
    match w {
        Number::Finite(d) => dec_lt(lowered(max, k), d),
        Number::NotANumber => false,
    }
}

/// The positions of the weights that exceed `max × 10^-k`, in order.
pub open spec fn selected(ws: Seq<Number>, max: Decimal, k: nat) -> Seq<int>
    decreases ws.len(),
{
    if ws.len() == 0 {
        Seq::<int>::empty()
    } else if exceeds(ws.last(), max, k) {
        selected(ws.drop_last(), max, k).push(ws.len() - 1)
    } else {
        selected(ws.drop_last(), max, k)
    }
}

/// The largest relative threshold exponent: thresholds run from 1 down to `10^-MAX_THRESHOLD_DIGITS`.
pub const MAX_THRESHOLD_DIGITS: u32 = 1000;

impl EntityRow {
    pub open spec fn wf(&self) -> bool {
        &&& self.subkeys@.len() == self.weights@.len()
        &&& weights_wf(self.weights@)
        &&& self.weight_max == max_weight(self.weights@)
    }
}

impl EntityRow {
    /// Whether the row is one `entity_edges` accepts: a weight per subkey, numbers in the
    /// range read from text, and the largest weight recorded.
    pub fn is_well_formed(&self) -> (r: bool)
        ensures
            r == self.wf(),
    {
        if self.subkeys.len() != self.weights.len() {
            return false;
        }
        let mut i: usize = 0;
        while i < self.weights.len()
            invariant
                i <= self.weights@.len(),
                weights_wf(self.weights@.take(i as int)),
            decreases self.weights@.len() - i,
        {
            match self.weights[i] {
                Number::Finite(d) => {
                    if !(-3_000_000 <= d.exponent && d.exponent <= 3_000_000) {
                        assert(!weights_wf(self.weights@)) by {
                            assert(self.weights@[i as int] == Number::Finite(d));
                        }
                        return false;
                    }
                },
                Number::NotANumber => {},
            }
            assert forall|j: int| 0 <= j < i + 1 implies (
            #[trigger] self.weights@.take(i + 1)[j] matches Number::Finite(d) ==> read_range(d)) by {
                if j < i {
                    assert(self.weights@.take(i + 1)[j] == self.weights@.take(i as int)[j]);
                }
            }
            i = i + 1;
        }
        assert(self.weights@.take(self.weights@.len() as int) =~= self.weights@);
        let m = largest_weight(&self.weights);
        m == self.weight_max
    }
}

/// Whether edge mutation `m` is the one for position `j` of `row`.
pub open spec fn is_edge_for(
    m: GraphMutation,
    key: Seq<Seq<char>>,
    entity: EntityKind,
    row: EntityRow,
    j: int,
) -> bool {
    match m {
        GraphMutation::EntityEdge { entity: e, entity_id, factor_id, weight } => {
            &&& e == entity
            &&& entity_id@ == row.entity@
            &&& factor_id@ == factor_id_spec(key, row.subkeys@[j]@)
            &&& row.weights@[j] == Number::Finite(weight)
        },
        _ => false,
    }
}

/// The edge mutations of one row: one for each weight that exceeds the row's largest weight
/// times `10^-threshold_digits`, in column order. Weights that are not numbers give none.
pub fn entity_edges(
    key: &Vec<String>,
    entity: EntityKind,
    row: &EntityRow,
    threshold_digits: u32,
) -> (r: Vec<GraphMutation>)
    requires
        row.wf(),
        threshold_digits <= MAX_THRESHOLD_DIGITS,
    ensures
        ({
            let sel = selected(row.weights@, row.weight_max, threshold_digits as nat);
            &&& r@.len() == sel.len()
            &&& forall|i: int|
                0 <= i < r@.len() ==> is_edge_for(
                    #[trigger] r@[i],
                    string_views(key@),
                    entity,
                    *row,
                    sel[i],
                )
        }),
{
    let ghost k = threshold_digits as nat;
    proof {
        lemma_max_weight_wf(row.weights@);
    }
    let limit = Decimal {
        negative: row.weight_max.negative,
        mantissa: row.weight_max.mantissa,
        exponent: row.weight_max.exponent - threshold_digits as i64,
    };
    let mut out: Vec<GraphMutation> = Vec::new();
    let mut i: usize = 0;
    while i < row.weights.len()
        invariant
            i <= row.weights@.len(),
            row.wf(),
            limit == lowered(row.weight_max, k),
            limit.wf(),
            ({
                let sel = selected(row.weights@.take(i as int), row.weight_max, k);
                &&& out@.len() == sel.len()
                &&& forall|j: int|
                    0 <= j < out@.len() ==> is_edge_for(
                        #[trigger] out@[j],
                        string_views(key@),
                        entity,
                        *row,
                        sel[j],
                    )
            }),
        decreases row.weights@.len() - i,
    {
        let ghost ws = row.weights@;
        assert(ws.take(i + 1).drop_last() =~= ws.take(i as int));
        assert(ws.take(i + 1).last() == ws[i as int]);
        match row.weights[i] {
            Number::Finite(d) => {
                assert(ws[i as int] matches Number::Finite(x) ==> read_range(x));
                if limit.less_than(&d) {
                    let id = factor_id(key, row.subkeys[i].as_str());
                    let m = GraphMutation::EntityEdge {
                        entity,
                        entity_id: row.entity.clone(),
                        factor_id: id,
                        weight: d,
                    };
                    out.push(m);
                }
            },
            Number::NotANumber => {},
        }
        i = i + 1;
    }
    assert(row.weights@.take(row.weights@.len() as int) =~= row.weights@);
    out
}

/// The relative threshold of the entity-to-factor edges: weights must exceed one hundredth
/// of the row's largest weight.
pub const EDGE_THRESHOLD_DIGITS: u32 = 2;

/// What an upload does with a file of a given kind.
#[derive(Clone, Copy, Debug, PartialEq, Eq, Structural)]
pub enum UploadAction {
    /// Each row names and labels a factor node.
    FactorNodes,
    /// Each row holds one entity's weights on the factors, thresholded at `10^-digits` of
    /// the row's largest weight.
    Edges(EntityKind, u32),
    /// The file is not uploaded.
    Ignore,
}

/// The table from file kind to upload action.
pub open spec fn upload_action_spec(kind: FileKind) -> UploadAction {
    match kind {
        FileKind::F => UploadAction::FactorNodes,
        FileKind::Gc => UploadAction::Edges(EntityKind::Gene, EDGE_THRESHOLD_DIGITS),
        FileKind::Pc => UploadAction::Edges(EntityKind::Pheno, EDGE_THRESHOLD_DIGITS),
        _ => UploadAction::Ignore,
    }
}

pub fn upload_action(kind: FileKind) -> (r: UploadAction)
    ensures
        r == upload_action_spec(kind),
{
    match kind {
        FileKind::F => UploadAction::FactorNodes,
        FileKind::Gc => UploadAction::Edges(EntityKind::Gene, EDGE_THRESHOLD_DIGITS),
        FileKind::Pc => UploadAction::Edges(EntityKind::Pheno, EDGE_THRESHOLD_DIGITS),
        _ => UploadAction::Ignore,
    }
}

/// The column that names the entity of an edge row.
pub fn entity_class(entity: EntityKind) -> (r: &'static str)
    ensures
        r@ == entity_class_spec(entity),
{
    match entity {
        EntityKind::Gene => "Gene",
        EntityKind::Pheno => "Pheno",
    }
}

pub open spec fn entity_class_spec(entity: EntityKind) -> Seq<char> {
    match entity {
        EntityKind::Gene => "Gene"@,
        EntityKind::Pheno => "Pheno"@,
    }
}

/// Builders for the rows of a file of edges from `entity`.
pub fn edge_rows(entity: EntityKind) -> (r: EntityUploadEaterMaker)
    ensures
        r.entity_class@ == entity_class_spec(entity),
{
    EntityUploadEaterMaker::new(String::from_str(entity_class(entity)))
}

/// The layout of a factor label table: the factor and its label, both required.
pub fn factor_label_layout() -> (r: Layout)
    ensures
        r.view() == (seq!["Factor"@, "label"@], Seq::<Seq<char>>::empty()),
{
    let r = Layout {
        required: vec![String::from_str("Factor"), String::from_str("label")],
        numeric: Vec::new(),
    };
    assert(r.view().0 =~= seq!["Factor"@, "label"@]);
    assert(r.view().1 =~= Seq::<Seq<char>>::empty());
    r
}

/// The factor node named by a factor label row.
pub fn factor_node(key: &Vec<String>, record: &Record) -> (r: GraphMutation)
    requires
        record.texts@.len() == 2,
    ensures
        r matches GraphMutation::FactorNode { id, name } && id@ == factor_id_spec(
            string_views(key@),
            record.texts@[0]@,
        ) && name@ == record.texts@[1]@,
{
    let id = factor_id(key, record.texts[0].as_str());
    GraphMutation::FactorNode { id, name: record.texts[1].clone() }
}

/// The weight of factor column `subkey` in a row's weight columns, from the last column of
/// that name.
pub open spec fn weight_named(ws: Seq<(Seq<char>, Number)>, subkey: Seq<char>) -> Option<Number>
    decreases ws.len(),
{
    if ws.len() == 0 {
        None
    } else if ws.last().0 == subkey {
        Some(ws.last().1)
    } else {
        weight_named(ws.drop_last(), subkey)
    }
}

/// A factor's weight is read from the field whose name is the factor prefix and the subkey.
proof fn lemma_weight_named(fields: Seq<(Seq<char>, Seq<char>)>, class: Seq<char>, subkey: Seq<char>)
    ensures
        weight_named(weight_fields(fields, class), subkey) == (if factor_prefix() + subkey == class {
            None
        } else {
            match last_value(fields, factor_prefix() + subkey) {
                Some(v) => Some(number_of(v)),
                None => None,
            }
        }),
    decreases fields.len(),
{
    let col = factor_prefix() + subkey;
    let n = factor_prefix().len() as int;
    assert(col.take(n) =~= factor_prefix());
    assert(col.skip(n) =~= subkey);
    assert(is_factor_token(col));
    if fields.len() > 0 {
        let init = fields.drop_last();
        lemma_weight_named(init, class, subkey);
        let (name, value) = fields.last();
        let prev = weight_fields(init, class);
        if name != class && is_factor_token(name) {
            let x = (name.skip(n), number_of(value));
            assert(weight_fields(fields, class) == prev.push(x));
            assert(prev.push(x).drop_last() =~= prev);
            assert(prev.push(x).last() == x);
            if name.skip(n) == subkey {
                assert(name =~= name.take(n) + name.skip(n));
                assert(name == col);
            }
            if name == col {
                assert(name.skip(n) == subkey);
            }
        } else {
            assert(weight_fields(fields, class) == prev);
            if name == col {
                assert(name == class);
            }
        }
    }
}

/// The entity and the weights of an entity row do not depend on the order of its columns:
/// two lines whose fields are the same (column, value) pairs, each column named once, give
/// the same entity and the same weight for every factor.
pub proof fn lemma_entity_order_independent(
    class: Seq<char>,
    f1: Seq<(Seq<char>, Seq<char>)>,
    f2: Seq<(Seq<char>, Seq<char>)>,
    subkey: Seq<char>,
)
    requires
        crate::record::distinct_names(f1),
        crate::record::distinct_names(f2),
        forall|p: (Seq<char>, Seq<char>)| f1.contains(p) <==> f2.contains(p),
    ensures
        last_value(f1, class) == last_value(f2, class),
        weight_named(weight_fields(f1, class), subkey) == weight_named(
            weight_fields(f2, class),
            subkey,
        ),
{
    assert forall|name: Seq<char>| last_value(f1, name) == last_value(f2, name) by {
        crate::record::lemma_last_value_pairs(f1, name);
        crate::record::lemma_last_value_pairs(f2, name);
        if last_value(f1, name) is Some {
            let v = last_value(f1, name)->Some_0;
            assert(f1.contains((name, v)));
            assert(f2.contains((name, v)));
        }
        if last_value(f2, name) is Some {
            let v = last_value(f2, name)->Some_0;
            assert(f2.contains((name, v)));
            assert(f1.contains((name, v)));
        }
    }
    lemma_weight_named(f1, class, subkey);
    lemma_weight_named(f2, class, subkey);
    assert(last_value(f1, factor_prefix() + subkey) == last_value(f2, factor_prefix() + subkey));
}

} // verus!
