//! A client of OPC UA servers: its points, what it asks the servers for, and what it makes of
//! their answers.
use crate::config::{PointConfig, Transform};
use crate::connector::{access_of, Access, Capabilities};
use crate::json::{Fields, Json, JsonObject, JsonView};
use crate::keyed::{field, mapped, mapped_field, mapped_with_field, with_field, TextMap};
use crate::model::{value_view, DataType, Mode, Quality, Sample, Value, ValueView};
use crate::schedule::PointRef;
use crate::text::{
    as_deref, concat2, concat3, copy_text, decimal_text, push_decimal, same_text, text_of, texts,
};
use crate::ua_values::{
    data_value_ts, decoded, good_status, is_good, status_name, status_text, value_moment,
    variant_to_value, Decoded, DecodedView, Reading,
};
use std::str::FromStr;
use vstd::prelude::*;

verus! {

/// What tells a node from the others of its namespace.
#[derive(Debug, PartialEq)]
pub enum NodeIdentifier {
    Numeric(u32),
    Text(String),
    Guid([u8; 16]),
    Opaque(Vec<u8>),
}

/// A node of a server.
#[derive(Debug, PartialEq)]
pub struct NodeId {
    pub namespace: u16,
    pub identifier: NodeIdentifier,
}

/// What tells a node from the others of its namespace.
#[verifier::ext_equal]
pub enum IdentifierView {
    Numeric(u32),
    Text(Seq<char>),
    Guid(Seq<u8>),
    Opaque(Seq<u8>),
}

/// A node of a server.
#[verifier::ext_equal]
pub struct NodeView {
    pub namespace: u16,
    pub identifier: IdentifierView,
}

impl View for NodeId {
    type V = NodeView;

    open spec fn view(&self) -> NodeView {
        NodeView {
            namespace: self.namespace,
            identifier: match self.identifier {
                NodeIdentifier::Numeric(i) => IdentifierView::Numeric(i),
                NodeIdentifier::Text(s) => IdentifierView::Text(s@),
                NodeIdentifier::Guid(g) => IdentifierView::Guid(g@),
                NodeIdentifier::Opaque(b) => IdentifierView::Opaque(b@),
            },
        }
    }
}

/// The node that a text names.
pub uninterp spec fn node_of(text: Seq<char>) -> Option<NodeView>;

/// The text that names a node.
pub uninterp spec fn node_text(node: NodeView) -> Seq<char>;

/// `opcua::types::NodeId` from a text such as `ns=2;s=Temperature`: the node that it names, where
/// it names one.
#[verifier::external_body]
fn parse_node(text: &str) -> (r: Option<NodeId>)
    ensures
        match r {
            Some(n) => node_of(text@) == Some(n@),
            None => node_of(text@) is None,
        },
{
    let node = opcua::types::NodeId::from_str(text).ok()?;
    let identifier = match node.identifier {
        opcua::types::Identifier::Numeric(i) => NodeIdentifier::Numeric(i),
        opcua::types::Identifier::String(s) => NodeIdentifier::Text(s.into()),
        opcua::types::Identifier::Guid(g) => NodeIdentifier::Guid(g.to_bytes()),
        opcua::types::Identifier::ByteString(b) => NodeIdentifier::Opaque(b.value?),
    };
    Some(NodeId { namespace: node.namespace, identifier })
}

/// `opcua::types::NodeId` as a text: the one that names the node.
#[verifier::external_body]
fn name_node(node: &NodeId) -> (r: String)
    ensures
        r@ == node_text(node@),
{
    let ns = node.namespace;
    match &node.identifier {
        NodeIdentifier::Numeric(i) => opcua::types::NodeId::new(ns, *i),
        NodeIdentifier::Text(s) => opcua::types::NodeId::new(ns, s.clone()),
        NodeIdentifier::Guid(g) => opcua::types::NodeId::new(ns, opcua::types::Guid::from_bytes(*g)),
        NodeIdentifier::Opaque(b) => {
            opcua::types::NodeId::new(ns, opcua::types::ByteString::from(b.clone()))
        }
    }
    .to_string()
}

/// A copy of bytes.
fn copy_bytes(b: &Vec<u8>) -> (r: Vec<u8>)
    ensures
        r@ == b@,
{
    let mut out: Vec<u8> = Vec::new();
    let mut i: usize = 0;
    while i < b.len()
        invariant
            i <= b@.len(),
            out@ == b@.take(i as int),
        decreases b@.len() - i,
    {
        out.push(b[i]);
        assert(out@ =~= b@.take(i + 1));
        i = i + 1;
    }
    assert(b@.take(b@.len() as int) =~= b@);
    out
}

impl Clone for NodeId {
    fn clone(&self) -> (r: NodeId)
        ensures
            r@ == self@,
    {
        NodeId {
            namespace: self.namespace,
            identifier: match &self.identifier {
                NodeIdentifier::Numeric(i) => NodeIdentifier::Numeric(*i),
                NodeIdentifier::Text(s) => NodeIdentifier::Text(s.clone()),
                NodeIdentifier::Guid(g) => NodeIdentifier::Guid(*g),
                NodeIdentifier::Opaque(b) => NodeIdentifier::Opaque(copy_bytes(b)),
            },
        }
    }
}

fn same_bytes(a: &[u8], b: &[u8]) -> (r: bool)
    ensures
        r == (a@ == b@),
{
    if a.len() != b.len() {
        return false;
    }
    let mut i: usize = 0;
    while i < a.len()
        invariant
            i <= a@.len() == b@.len(),
            forall|k: int| 0 <= k < i ==> a@[k] == b@[k],
        decreases a@.len() - i,
    {
        if a[i] != b[i] {
            return false;
        }
        i = i + 1;
    }
    assert(a@ =~= b@);
    true
}

/// Whether two nodes are one.
pub fn same_node(a: &NodeId, b: &NodeId) -> (r: bool)
    ensures
        r == (a@ == b@),
{
    a.namespace == b.namespace && match (&a.identifier, &b.identifier) {
        (NodeIdentifier::Numeric(x), NodeIdentifier::Numeric(y)) => *x == *y,
        (NodeIdentifier::Text(x), NodeIdentifier::Text(y)) => same_text(x.as_str(), y.as_str()),
        (NodeIdentifier::Guid(x), NodeIdentifier::Guid(y)) => same_bytes(
            x.as_slice(),
            y.as_slice(),
        ),
        (NodeIdentifier::Opaque(x), NodeIdentifier::Opaque(y)) => same_bytes(
            x.as_slice(),
            y.as_slice(),
        ),
        _ => false,
    }
}

/// How a point's node is configured: as text, or in its parts.
#[derive(Debug, PartialEq)]
pub struct NodeAddress {
    pub node_id: Option<String>,
    pub namespace: Option<u16>,
    pub identifier: Option<Json>,
}

/// The node that an address names, by the node that its text names where it has one; or what is
/// wrong with it.
pub open spec fn address_node(a: NodeAddress, of_text: Option<NodeView>) -> Result<
    NodeView,
    Seq<char>,
> {
    match a.node_id {
        Some(text) => match of_text {
            Some(n) => Ok(n),
            None => Err("invalid node_id '"@ + text@ + "'"@),
        },
        None => match a.namespace {
            None => Err("missing 'node_id' or 'namespace'/'identifier'"@),
            Some(ns) => match crate::json::view_of(a.identifier) {
                Some(JsonView::Text(s)) => Ok(
                    NodeView { namespace: ns, identifier: IdentifierView::Text(s) },
                ),
                Some(JsonView::Number(n)) => match crate::json::numeral_as_u64(n) {
                    Some(u) => Ok(
                        NodeView { namespace: ns, identifier: IdentifierView::Numeric(u as u32) },
                    ),
                    None => Err("numeric identifier must be a non-negative integer"@),
                },
                _ => Err("missing or invalid 'identifier'"@),
            },
        },
    }
}

/// The node that an address' text names.
pub open spec fn text_node(a: NodeAddress) -> Option<NodeView> {
    match a.node_id {
        Some(text) => node_of(text@),
        None => None,
    }
}

/// What a result holds.
pub open spec fn node_result(r: Result<NodeId, String>) -> Result<NodeView, Seq<char>> {
    match r {
        Ok(n) => Ok(n@),
        Err(e) => Err(e@),
    }
}

/// What an optional node is.
pub open spec fn node_view(n: Option<NodeId>) -> Option<NodeView> {
    match n {
        Some(x) => Some(x@),
        None => None,
    }
}

/// The node that an address names, by the node that its text names.
pub fn resolve_node(address: &NodeAddress, of_text: Option<NodeId>) -> (r: Result<NodeId, String>)
    ensures
        node_result(r) == address_node(*address, node_view(of_text)),
{
    if let Some(text) = &address.node_id {
        return match of_text {
            Some(n) => Ok(n),
            None => Err(concat3("invalid node_id '", text.as_str(), "'")),
        };
    }
    let ns: u16 = match address.namespace {
        Some(ns) => ns,
        None => {
            return Err("missing 'node_id' or 'namespace'/'identifier'".to_owned());
        },
    };
    match &address.identifier {
        Some(v) => {
            proof {
                v.lemma_view();
            }
            match v {
                Json::Text(s) => Ok(
                    NodeId { namespace: ns, identifier: NodeIdentifier::Text(s.clone()) },
                ),
                Json::Number(n) => match n.as_u64() {
                    Some(u) => Ok(
                        NodeId {
                            namespace: ns,
                            identifier: NodeIdentifier::Numeric(
                                #[verifier::truncate]
                                (u as u32),
                            ),
                        },
                    ),
                    None => Err("numeric identifier must be a non-negative integer".to_owned()),
                },
                _ => Err("missing or invalid 'identifier'".to_owned()),
            }
        },
        None => Err("missing or invalid 'identifier'".to_owned()),
    }
}

/// The node that an address names, or what is wrong with it.
pub fn node_id_from(address: &NodeAddress) -> (r: Result<NodeId, String>)
    ensures
        node_result(r) == address_node(*address, text_node(*address)),
{
    let of_text: Option<NodeId> = match &address.node_id {
        Some(text) => parse_node(text.as_str()),
        None => None,
    };
    resolve_node(address, of_text)
}

/// A point: its node, and how it is read and written.
#[derive(Debug, PartialEq)]
pub struct OpcuaPoint {
    pub node_id: NodeId,
    pub mode: Mode,
    pub datatype: Option<DataType>,
    pub access: Access,
    pub unit: Option<String>,
    pub transform: Option<Transform>,
}

/// What a point is.
#[verifier::ext_equal]
pub struct UaPointView {
    pub node: NodeView,
    pub mode: Mode,
    pub datatype: Option<DataType>,
    pub access: Access,
    pub unit: Option<Seq<char>>,
    pub transform: Option<crate::schedule::TransformView>,
}

impl View for OpcuaPoint {
    type V = UaPointView;

    open spec fn view(&self) -> UaPointView {
        UaPointView {
            node: self.node_id@,
            mode: self.mode,
            datatype: self.datatype,
            access: self.access,
            unit: text_of(self.unit),
            transform: crate::schedule::transform_view(self.transform),
        }
    }
}

impl Clone for OpcuaPoint {
    fn clone(&self) -> (r: OpcuaPoint)
        ensures
            r@ == self@,
    {
        OpcuaPoint {
            node_id: self.node_id.clone(),
            mode: self.mode,
            datatype: self.datatype,
            access: self.access,
            unit: copy_text(&self.unit),
            transform: crate::schedule::copy_transform(&self.transform),
        }
    }
}

/// The point of a configured one, by the node that its address names; or what is wrong with it.
pub open spec fn configured_ua_point(
    p: PointConfig,
    device_default: Option<Mode>,
    node: Result<NodeView, Seq<char>>,
) -> Result<UaPointView, Seq<char>> {
    let mode = crate::config::resolved(p.mode, device_default);
    match node {
        Err(e) => Err("point '"@ + p.id@ + "' address: "@ + e),
        Ok(n) => if mode == Mode::Typed && p.datatype is None {
            Err("point '"@ + p.id@ + "' is typed but has no datatype"@)
        } else {
            Ok(
                UaPointView {
                    node: n,
                    mode,
                    datatype: p.datatype,
                    access: access_of(text_of(p.access)),
                    unit: text_of(p.unit),
                    transform: crate::schedule::transform_view(p.transform),
                },
            )
        },
    }
}

/// What a result holds.
pub open spec fn point_result(r: Result<OpcuaPoint, String>) -> Result<UaPointView, Seq<char>> {
    match r {
        Ok(p) => Ok(p@),
        Err(e) => Err(e@),
    }
}

/// The point of a configured one, or what is wrong with it.
pub fn configure_point(
    point: &PointConfig,
    device_default: Option<Mode>,
    node: Result<NodeId, String>,
) -> (r: Result<OpcuaPoint, String>)
    ensures
        point_result(r) == configured_ua_point(*point, device_default, node_result(node)),
{
    match node {
        Err(e) => {
            let mut out: String = concat3("point '", point.id.as_str(), "' address: ");
            out.append(e.as_str());
            Err(out)
        },
        Ok(node_id) => {
            let mode: Mode = point.resolved_mode(device_default);
            if mode == Mode::Typed && point.datatype.is_none() {
                return Err(
                    concat3("point '", point.id.as_str(), "' is typed but has no datatype"),
                );
            }
            Ok(
                OpcuaPoint {
                    node_id,
                    mode,
                    datatype: point.datatype,
                    access: Access::parse(as_deref(&point.access)),
                    unit: copy_text(&point.unit),
                    transform: crate::schedule::copy_transform(&point.transform),
                },
            )
        },
    }
}

/// The points of a device, by their ids.
pub type UaPoints = Seq<(Seq<char>, UaPointView)>;

/// The points of the first `n` configured ones, or what is wrong with the first that is wrong.
pub open spec fn configured_ua_points(
    points: Seq<PointConfig>,
    device_default: Option<Mode>,
    addresses: Seq<NodeAddress>,
    n: int,
) -> Result<UaPoints, Seq<char>>
    decreases n,
{
    if n <= 0 {
        Ok(Seq::empty())
    } else {
        match configured_ua_points(points, device_default, addresses, n - 1) {
            Err(e) => Err(e),
            Ok(head) => {
                let a = addresses[n - 1];
                match configured_ua_point(
                    points[n - 1],
                    device_default,
                    address_node(a, text_node(a)),
                ) {
                    Ok(p) => Ok(with_field(head, points[n - 1].id@, p)),
                    Err(e) => Err(e),
                }
            },
        }
    }
}

proof fn wrong_point_stays_wrong(
    points: Seq<PointConfig>,
    device_default: Option<Mode>,
    addresses: Seq<NodeAddress>,
    n: int,
    m: int,
)
    requires
        0 <= n <= m,
        configured_ua_points(points, device_default, addresses, n) is Err,
    ensures
        configured_ua_points(points, device_default, addresses, m) == configured_ua_points(
            points,
            device_default,
            addresses,
            n,
        ),
    decreases m,
{
    if n < m {
        wrong_point_stays_wrong(points, device_default, addresses, n, m - 1);
    }
}

/// The points of a device: of two of one id the later counts.
#[derive(Debug, PartialEq)]
pub struct DeviceModel {
    points: TextMap<OpcuaPoint>,
}

impl View for DeviceModel {
    type V = UaPoints;

    closed spec fn view(&self) -> UaPoints {
        mapped(self.points@, |p: OpcuaPoint| p@)
    }
}

/// What a result holds.
pub open spec fn model_result(r: Result<DeviceModel, String>) -> Result<UaPoints, Seq<char>> {
    match r {
        Ok(m) => Ok(m@),
        Err(e) => Err(e@),
    }
}

impl DeviceModel {
    /// The points of a device, each with its address; or what is wrong with the first that is.
    pub fn configure(
        points: &Vec<PointConfig>,
        device_default: Option<Mode>,
        addresses: &Vec<NodeAddress>,
    ) -> (r: Result<DeviceModel, String>)
        requires
            points@.len() == addresses@.len(),
        ensures
            model_result(r) == configured_ua_points(
                points@,
                device_default,
                addresses@,
                points@.len() as int,
            ),
    {
        let ghost g = |p: OpcuaPoint| p@;
        let mut out: TextMap<OpcuaPoint> = TextMap::new();
        let mut i: usize = 0;
        assert(mapped(out@, g) =~= UaPoints::empty());
        while i < points.len()
            invariant
                i <= points@.len() == addresses@.len(),
                g == |p: OpcuaPoint| p@,
                configured_ua_points(points@, device_default, addresses@, i as int) == Ok::<
                    UaPoints,
                    Seq<char>,
                >(mapped(out@, g)),
            decreases points@.len() - i,
        {
            match configure_point(&points[i], device_default, node_id_from(&addresses[i])) {
                Ok(p) => {
                    proof {
                        mapped_with_field(out@, g, points@[i as int].id@, p);
                    }
                    out.insert(points[i].id.as_str(), p);
                },
                Err(e) => {
                    proof {
                        wrong_point_stays_wrong(
                            points@,
                            device_default,
                            addresses@,
                            i + 1,
                            points@.len() as int,
                        );
                    }
                    return Err(e);
                },
            }
            i = i + 1;
        }
        Ok(DeviceModel { points: out })
    }

    /// The point of an id.
    pub fn point(&self, id: &str) -> (r: Option<&OpcuaPoint>)
        ensures
            match r {
                Some(p) => field(self@, id@) == Some(p@),
                None => field(self@, id@) is None,
            },
    {
        proof {
            mapped_field(self.points@, |p: OpcuaPoint| p@, id@);
        }
        self.points.get(id)
    }
}

/// The name of the protocol.
pub const PROTOCOL: &'static str = "opcua";

/// What the client can do.
pub fn capabilities(version: &'static str) -> (r: Capabilities)
    ensures
        r.protocol@ == "opcua"@,
        r.version == version,
        r.modes@ == seq![Mode::Raw, Mode::Typed],
        r.datatypes@ == seq![
            DataType::Bool,
            DataType::Int8,
            DataType::Uint8,
            DataType::Int16,
            DataType::Uint16,
            DataType::Int32,
            DataType::Uint32,
            DataType::Int64,
            DataType::Uint64,
            DataType::Float32,
            DataType::Float64,
            DataType::String,
        ],
        texts(r.point_kinds@) == seq!["variable"@],
        texts(r.command_verbs@) == seq!["write"@],
        texts(r.features@) == seq!["polling"@, "subscribe"@],
        r.subscribe,
{
    let kinds: Vec<String> = vec!["variable".to_owned()];
    let verbs: Vec<String> = vec!["write".to_owned()];
    let features: Vec<String> = vec!["polling".to_owned(), "subscribe".to_owned()];
    assert(texts(kinds@) =~= seq!["variable"@]);
    assert(texts(verbs@) =~= seq!["write"@]);
    assert(texts(features@) =~= seq!["polling"@, "subscribe"@]);
    Capabilities {
        protocol: "opcua",
        version,
        modes: vec![Mode::Raw, Mode::Typed],
        datatypes: vec![
            DataType::Bool,
            DataType::Int8,
            DataType::Uint8,
            DataType::Int16,
            DataType::Uint16,
            DataType::Int32,
            DataType::Uint32,
            DataType::Int64,
            DataType::Uint64,
            DataType::Float32,
            DataType::Float64,
            DataType::String,
        ],
        point_kinds: kinds,
        command_verbs: verbs,
        features,
        subscribe: true,
    }
}

/// What a server returned for a node.
#[derive(Debug, PartialEq)]
pub struct DataValue {
    pub value: Option<Reading>,
    pub status: Option<u32>,
    /// When the value is of, in ticks, by its source and by its server.
    pub source_timestamp: Option<i64>,
    pub server_timestamp: Option<i64>,
}

/// What a returned value is, or why there is none.
pub open spec fn inspected(dv: DataValue) -> Result<DecodedView, Seq<char>> {
    let status = match dv.status {
        Some(c) => c,
        None => 0u32,
    };
    if !good_status(status) {
        Err("bad status: "@ + status_text(status))
    } else {
        match dv.value {
            None => Err("no value returned"@),
            Some(v) => match decoded(v) {
                Some(d) => Ok(d),
                None => Err("unsupported OPC-UA value type"@),
            },
        }
    }
}

/// What a result holds.
pub open spec fn decoded_result(r: Result<Decoded, String>) -> Result<DecodedView, Seq<char>> {
    match r {
        Ok(d) => Ok(d@),
        Err(e) => Err(e@),
    }
}

/// What a returned value is, or why there is none.
pub fn inspect(dv: &DataValue) -> (r: Result<Decoded, String>)
    ensures
        decoded_result(r) == inspected(*dv),
{
    let status: u32 = match dv.status {
        Some(c) => c,
        None => 0,
    };
    if !is_good(status) {
        let name: String = status_name(status);
        return Err(concat2("bad status: ", name.as_str()));
    }
    match &dv.value {
        None => Err("no value returned".to_owned()),
        Some(v) => match variant_to_value(v) {
            Some(d) => Ok(d),
            None => Err("unsupported OPC-UA value type".to_owned()),
        },
    }
}

/// What a sample is.
#[verifier::ext_equal]
pub struct SampleView {
    pub ts: int,
    pub device: Seq<char>,
    pub protocol: Seq<char>,
    pub point: Seq<char>,
    pub mode: Mode,
    pub datatype: Option<DataType>,
    pub value: Option<ValueView>,
    pub raw: Seq<u8>,
    pub raw_group: int,
    pub quality: Quality,
    pub unit: Option<Seq<char>>,
    pub addr: JsonView,
    pub seq: Option<u64>,
    pub error: Option<Seq<char>>,
}

impl View for Sample {
    type V = SampleView;

    open spec fn view(&self) -> SampleView {
        SampleView {
            ts: self.ts as int,
            device: self.device@,
            protocol: self.protocol@,
            point: self.point@,
            mode: self.mode,
            datatype: self.datatype,
            value: value_view(self.value),
            raw: self.raw@,
            raw_group: self.raw_group as int,
            quality: self.quality,
            unit: text_of(self.unit),
            addr: self.addr@,
            seq: self.seq,
            error: text_of(self.error),
        }
    }
}

/// What each sample is.
pub open spec fn sample_views(v: Seq<Sample>) -> Seq<SampleView> {
    v.map_values(|s: Sample| s@)
}

/// The address of a point in a sample.
pub open spec fn address_echo(node: NodeView) -> JsonView {
    JsonView::Object(with_field(Fields::empty(), "node_id"@, JsonView::Text(node_text(node))))
}

/// The address of a point in a sample.
pub fn addr_echo(point: &OpcuaPoint) -> (r: Json)
    ensures
        r@ == address_echo(point.node_id@),
{
    let mut obj = JsonObject::new();
    obj.insert("node_id", Json::of_string(name_node(&point.node_id)));
    Json::of_object(obj)
}

/// The sample of a point that could not be read. A point of which nothing is known is raw: it has
/// no datatype.
pub open spec fn bad_reading(
    id: Seq<char>,
    point: Option<UaPointView>,
    error: Seq<char>,
    now: int,
) -> SampleView {
    SampleView {
        ts: now,
        device: Seq::empty(),
        protocol: "opcua"@,
        point: id,
        mode: match point {
            Some(p) => p.mode,
            None => Mode::Raw,
        },
        datatype: match point {
            Some(p) => p.datatype,
            None => None,
        },
        value: None,
        raw: Seq::empty(),
        raw_group: 1,
        quality: Quality::Bad,
        unit: match point {
            Some(p) => p.unit,
            None => None,
        },
        addr: match point {
            Some(p) => address_echo(p.node),
            None => JsonView::Null,
        },
        seq: None,
        error: Some(error),
    }
}

/// What an optional point is.
pub open spec fn ua_point(p: Option<&OpcuaPoint>) -> Option<UaPointView> {
    match p {
        Some(x) => Some(x@),
        None => None,
    }
}

/// The sample of a point that could not be read.
pub fn bad_sample(id: &str, point: Option<&OpcuaPoint>, error: &str, now: i128) -> (r: Sample)
    ensures
        r@ == bad_reading(id@, ua_point(point), error@, now as int),
{
    match point {
        Some(p) => Sample {
            ts: now,
            device: String::new(),
            protocol: "opcua".to_owned(),
            point: id.to_owned(),
            mode: p.mode,
            datatype: p.datatype,
            value: None,
            raw: Vec::new(),
            raw_group: 1,
            quality: Quality::Bad,
            unit: copy_text(&p.unit),
            addr: addr_echo(p),
            seq: None,
            error: Some(error.to_owned()),
        },
        None => Sample {
            ts: now,
            device: String::new(),
            protocol: "opcua".to_owned(),
            point: id.to_owned(),
            mode: Mode::Raw,
            datatype: None,
            value: None,
            raw: Vec::new(),
            raw_group: 1,
            quality: Quality::Bad,
            unit: None,
            addr: Json::null(),
            seq: None,
            error: Some(error.to_owned()),
        },
    }
}

/// The sample of what a server returned for a point. `scaled` is the value by the point's
/// transform, where that changes it. A raw point carries no value.
pub open spec fn reading_sample(
    id: Seq<char>,
    p: UaPointView,
    dv: DataValue,
    scaled: Option<ValueView>,
    now: int,
) -> SampleView {
    match inspected(dv) {
        Err(e) => bad_reading(id, Some(p), e, now),
        Ok(d) => SampleView {
            ts: value_moment(dv.source_timestamp, dv.server_timestamp, now),
            device: Seq::empty(),
            protocol: "opcua"@,
            point: id,
            mode: p.mode,
            datatype: if p.mode == Mode::Raw || p.datatype is Some {
                p.datatype
            } else {
                Some(d.datatype)
            },
            value: if p.mode == Mode::Raw {
                None
            } else {
                match scaled {
                    Some(v) => Some(v),
                    None => Some(d.value),
                }
            },
            raw: d.raw,
            raw_group: 1,
            quality: Quality::Good,
            unit: p.unit,
            addr: address_echo(p.node),
            seq: None,
            error: None,
        },
    }
}

/// The sample of what a server returned for a point.
pub fn build_sample(
    id: &str,
    point: &OpcuaPoint,
    dv: &DataValue,
    scaled: Option<Value>,
    now: i128,
) -> (r: Sample)
    ensures
        r@ == reading_sample(
            id@,
            point@,
            *dv,
            value_view(scaled),
            now as int,
        ),
{
    match inspect(dv) {
        Err(e) => bad_sample(id, Some(point), e.as_str(), now),
        Ok(d) => {
            let datatype: Option<DataType> = match (point.mode, point.datatype) {
                (Mode::Raw, dt) => dt,
                (Mode::Typed, Some(dt)) => Some(dt),
                (Mode::Typed, None) => Some(d.datatype),
            };
            let value: Option<Value> = match point.mode {
                Mode::Raw => None,
                Mode::Typed => match scaled {
                    Some(v) => Some(v),
                    None => Some(d.value),
                },
            };
            Sample {
                ts: data_value_ts(dv.source_timestamp, dv.server_timestamp, now),
                device: String::new(),
                protocol: "opcua".to_owned(),
                point: id.to_owned(),
                mode: point.mode,
                datatype,
                value,
                raw: d.raw,
                raw_group: 1,
                quality: Quality::Good,
                unit: copy_text(&point.unit),
                addr: addr_echo(point),
                seq: None,
                error: None,
            }
        },
    }
}

/// A sample says what went wrong where its quality is bad, and only there; and a bad one carries
/// no value.
pub proof fn bad_samples_say_why(
    id: Seq<char>,
    p: UaPointView,
    dv: DataValue,
    scaled: Option<ValueView>,
    now: int,
)
    ensures
        ({
            let s = reading_sample(id, p, dv, scaled, now);
            &&& (s.quality == Quality::Bad) == (s.error is Some)
            &&& s.quality == Quality::Bad ==> s.value is None
            &&& s.quality == Quality::Good && s.mode == Mode::Typed ==> s.value is Some
                && s.datatype is Some
        }),
{
}

/// A point to read: its id and what it is.
pub struct KnownPoint {
    pub id: String,
    pub point: OpcuaPoint,
}

/// What a point to read is.
pub open spec fn known_views(v: Seq<KnownPoint>) -> Seq<(Seq<char>, UaPointView)> {
    v.map_values(|k: KnownPoint| (k.id@, k.point@))
}

/// The points of a device that can be read, of those that are asked for.
pub open spec fn known_points(model: Option<UaPoints>, ids: Seq<Seq<char>>) -> Seq<
    (Seq<char>, UaPointView),
>
    decreases ids.len(),
{
    if ids.len() == 0 {
        Seq::empty()
    } else {
        let head = known_points(model, ids.drop_last());
        match lookup(model, ids.last()) {
            Some(p) => head.push((ids.last(), p)),
            None => head,
        }
    }
}

/// The point of an id, where there is such a device.
pub open spec fn lookup(model: Option<UaPoints>, id: Seq<char>) -> Option<UaPointView> {
    match model {
        Some(m) => field(m, id),
        None => None,
    }
}

/// The samples of the points that are not known.
pub open spec fn unknown_samples(model: Option<UaPoints>, ids: Seq<Seq<char>>, now: int) -> Seq<
    SampleView,
>
    decreases ids.len(),
{
    if ids.len() == 0 {
        Seq::empty()
    } else {
        let head = unknown_samples(model, ids.drop_last(), now);
        match lookup(model, ids.last()) {
            Some(_) => head,
            None => head.push(bad_reading(ids.last(), None, "unknown point"@, now)),
        }
    }
}

/// The samples of points of a device that is not connected.
pub open spec fn unconnected_samples(model: Option<UaPoints>, ids: Seq<Seq<char>>, now: int) -> Seq<
    SampleView,
> {
    ids.map_values(
        |id: Seq<char>| bad_reading(id, lookup(model, id), "device not connected"@, now),
    )
}

/// The ids of points.
pub open spec fn ids_of(points: Seq<PointRef>) -> Seq<Seq<char>> {
    points.map_values(|p: PointRef| p.id@)
}

/// What an optional model is.
pub open spec fn model_view(m: Option<&DeviceModel>) -> Option<UaPoints> {
    match m {
        Some(x) => Some(x@),
        None => None,
    }
}

/// What is to be read of a device, and the samples that are settled without.
pub struct ReadPlan {
    pub known: Vec<KnownPoint>,
    pub samples: Vec<Sample>,
}

fn find_point<'a>(model: Option<&'a DeviceModel>, id: &str) -> (r: Option<&'a OpcuaPoint>)
    ensures
        ua_point(r) == lookup(model_view(model), id@),
{
    match model {
        Some(m) => m.point(id),
        None => None,
    }
}

/// What is to be read of a device, and the samples that are settled without: all, where it is not
/// connected; those of unknown points, where it is.
pub fn plan_read(
    model: Option<&DeviceModel>,
    connected: bool,
    points: &Vec<PointRef>,
    now: i128,
) -> (r: ReadPlan)
    ensures
        !connected ==> r.known@.len() == 0 && sample_views(r.samples@) == unconnected_samples(
            model_view(model),
            ids_of(points@),
            now as int,
        ),
        connected ==> known_views(r.known@) == known_points(model_view(model), ids_of(points@))
            && sample_views(r.samples@) == unknown_samples(
            model_view(model),
            ids_of(points@),
            now as int,
        ),
{
    let ghost ids = ids_of(points@);
    let ghost m = model_view(model);
    let mut known: Vec<KnownPoint> = Vec::new();
    let mut samples: Vec<Sample> = Vec::new();
    let mut i: usize = 0;
    assert(ids.take(0) =~= Seq::<Seq<char>>::empty());
    assert(known_views(known@) =~= Seq::<(Seq<char>, UaPointView)>::empty());
    assert(sample_views(samples@) =~= Seq::<SampleView>::empty());
    assert(unconnected_samples(m, ids.take(0), now as int) =~= Seq::<SampleView>::empty());
    while i < points.len()
        invariant
            i <= points@.len(),
            ids == ids_of(points@),
            m == model_view(model),
            !connected ==> known@.len() == 0 && sample_views(samples@) == unconnected_samples(
                m,
                ids.take(i as int),
                now as int,
            ),
            connected ==> known_views(known@) == known_points(m, ids.take(i as int))
                && sample_views(samples@) == unknown_samples(m, ids.take(i as int), now as int),
        decreases points@.len() - i,
    {
        let id: &str = points[i].id.as_str();
        assert(ids.take(i + 1).drop_last() =~= ids.take(i as int));
        assert(ids.take(i + 1).last() == id@);
        let ghost was = sample_views(samples@);
        let ghost had = known_views(known@);
        let found: Option<&OpcuaPoint> = find_point(model, id);
        if !connected {
            let s: Sample = bad_sample(id, found, "device not connected", now);
            samples.push(s);
            assert(sample_views(samples@) =~= was.push(s@));
            assert(was.push(s@) =~= unconnected_samples(m, ids.take(i + 1), now as int));
        } else {
            match found {
                Some(p) => {
                    let k = KnownPoint { id: id.to_owned(), point: p.clone() };
                    known.push(k);
                    assert(known_views(known@) =~= had.push((k.id@, k.point@)));
                },
                None => {
                    let s: Sample = bad_sample(id, None, "unknown point", now);
                    samples.push(s);
                    assert(sample_views(samples@) =~= was.push(s@));
                },
            }
        }
        i = i + 1;
    }
    assert(ids.take(ids.len() as int) =~= ids);
    ReadPlan { known, samples }
}

/// What came of asking a server for values.
pub enum ReadOutcome {
    /// The values that it returned, each with the value by the point's transform where that
    /// changes it.
    Values(Vec<(DataValue, Option<Value>)>),
    /// The status that it answered with.
    Failed(u32),
    /// It did not answer, for so many seconds.
    TimedOut(u64),
}

/// The samples of the values that a server returned, in turn. A polled value is of the time that
/// it was read.
pub open spec fn polled_samples(
    known: Seq<(Seq<char>, UaPointView)>,
    values: Seq<(DataValue, Option<Value>)>,
    now: int,
) -> Seq<SampleView> {
    let n = if known.len() < values.len() {
        known.len()
    } else {
        values.len()
    };
    Seq::new(
        n,
        |i: int|
            SampleView {
                ts: now,
                ..reading_sample(
                    known[i].0,
                    known[i].1,
                    values[i].0,
                    value_view(values[i].1),
                    now,
                )
            },
    )
}

/// The samples of points that could not be read, for one reason.
pub open spec fn failed_samples(
    known: Seq<(Seq<char>, UaPointView)>,
    reason: Seq<char>,
    now: int,
) -> Seq<SampleView> {
    known.map_values(
        |k: (Seq<char>, UaPointView)| bad_reading(k.0, Some(k.1), reason, now),
    )
}

/// The samples of a read.
pub open spec fn read_samples(
    known: Seq<(Seq<char>, UaPointView)>,
    outcome: ReadOutcome,
    now: int,
) -> Seq<SampleView> {
    match outcome {
        ReadOutcome::Values(v) => polled_samples(known, v@, now),
        ReadOutcome::Failed(code) => failed_samples(
            known,
            "read failed: "@ + status_text(code),
            now,
        ),
        ReadOutcome::TimedOut(secs) => failed_samples(
            known,
            "read timed out after "@ + decimal_text(secs as nat) + "s (transport down?)"@,
            now,
        ),
    }
}

fn fail_all(known: &Vec<KnownPoint>, reason: &str, now: i128) -> (r: Vec<Sample>)
    ensures
        sample_views(r@) == failed_samples(known_views(known@), reason@, now as int),
{
    let mut out: Vec<Sample> = Vec::new();
    let mut i: usize = 0;
    while i < known.len()
        invariant
            i <= known@.len(),
            out@.len() == i,
            forall|k: int|
                0 <= k < i ==> (#[trigger] out@[k])@ == bad_reading(
                    known@[k].id@,
                    Some(known@[k].point@),
                    reason@,
                    now as int,
                ),
        decreases known@.len() - i,
    {
        out.push(bad_sample(known[i].id.as_str(), Some(&known[i].point), reason, now));
        i = i + 1;
    }
    assert(sample_views(out@) =~= failed_samples(known_views(known@), reason@, now as int));
    out
}

fn take_values(known: &Vec<KnownPoint>, values: Vec<(DataValue, Option<Value>)>, now: i128) -> (r:
    Vec<Sample>)
    ensures
        sample_views(r@) == polled_samples(known_views(known@), values@, now as int),
{
    let ghost all = values@;
    let mut values: Vec<(DataValue, Option<Value>)> = values;
    let mut out: Vec<Sample> = Vec::new();
    let mut i: usize = 0;
    while i < known.len() && i < values.len()
        invariant
            i <= known@.len(),
            i <= values@.len() == all.len(),
            out@.len() == i,
            forall|k: int| i <= k < all.len() ==> (#[trigger] values@[k]) == all[k],
            forall|k: int|
                0 <= k < i ==> (#[trigger] out@[k])@ == polled_samples(
                    known_views(known@),
                    all,
                    now as int,
                )[k],
        decreases known@.len() - i,
    {
        let mut scaled: Option<Value> = None;
        std::mem::swap(&mut scaled, &mut values[i].1);
        let mut s: Sample = build_sample(
            known[i].id.as_str(),
            &known[i].point,
            &values[i].0,
            scaled,
            now,
        );
        s.ts = now;
        assert(s@ =~= polled_samples(known_views(known@), all, now as int)[i as int]);
        out.push(s);
        i = i + 1;
    }
    assert(sample_views(out@) =~= polled_samples(known_views(known@), all, now as int));
    out
}

/// The samples of a read: those that were settled without, and those of what the server answered.
pub fn finish_read(plan: ReadPlan, outcome: ReadOutcome, now: i128) -> (r: Vec<Sample>)
    ensures
        sample_views(r@) == sample_views(plan.samples@) + read_samples(
            known_views(plan.known@),
            outcome,
            now as int,
        ),
{
    let known: Vec<KnownPoint> = plan.known;
    let mut out: Vec<Sample> = plan.samples;
    let ghost head = sample_views(out@);
    let mut more: Vec<Sample> = match outcome {
        ReadOutcome::Values(v) => take_values(&known, v, now),
        ReadOutcome::Failed(code) => {
            let name: String = status_name(code);
            let reason: String = concat2("read failed: ", name.as_str());
            fail_all(&known, reason.as_str(), now)
        },
        ReadOutcome::TimedOut(secs) => {
            let mut reason: String = "read timed out after ".to_owned();
            push_decimal(&mut reason, secs);
            reason.append("s (transport down?)");
            fail_all(&known, reason.as_str(), now)
        },
    };
    let ghost tail = sample_views(more@);
    out.append(&mut more);
    assert(sample_views(out@) =~= head + tail);
    out
}

/// A value that a server returned with a good status becomes a good sample of its point: of the
/// value that was read, or of what the point's transform makes of it, with the bytes that were
/// read and the time that the value is of. A raw point carries only the bytes. Anything else
/// becomes a bad sample.
pub proof fn samples_say_what_the_server_returned(
    id: Seq<char>,
    p: UaPointView,
    dv: DataValue,
    scaled: Option<ValueView>,
    now: int,
)
    ensures
        ({
            let s = reading_sample(id, p, dv, scaled, now);
            let good = match dv.status {
                Some(code) => code < 0x4000_0000,
                None => true,
            };
            let read = match dv.value {
                Some(v) => decoded(v),
                None => None,
            };
            &&& s.point == id && s.mode == p.mode && s.unit == p.unit && s.protocol == "opcua"@
            &&& s.quality == Quality::Good <==> good && read is Some
            &&& s.quality == Quality::Bad <==> !good || read is None
            &&& s.quality == Quality::Good ==> s.raw == read->0.raw && s.error is None && s.ts
                == value_moment(dv.source_timestamp, dv.server_timestamp, now)
            &&& s.quality == Quality::Good && p.mode == Mode::Raw ==> s.value is None && s.datatype
                == p.datatype
            &&& s.quality == Quality::Good && p.mode == Mode::Typed && scaled is None ==> s.value
                == Some(read->0.value)
            &&& s.quality == Quality::Good && p.mode == Mode::Typed && scaled is Some ==> s.value
                == scaled
            &&& s.quality == Quality::Good && p.mode == Mode::Typed ==> s.datatype == match p.datatype {
                Some(d) => Some(d),
                None => Some(read->0.datatype),
            }
            &&& s.quality == Quality::Bad ==> s.value is None && s.raw.len() == 0 && s.error is Some
                && s.ts == now && s.datatype == p.datatype
        }),
{
}

/// A point is configured as it is declared: with the node that its address names, its own mode or
/// its device's, and the access, the datatype and the unit that it declares. It is refused exactly
/// where its address names no node, or where it is typed without a datatype.
pub proof fn points_are_configured_as_they_are_declared(
    p: PointConfig,
    device_default: Option<Mode>,
    node: Result<NodeView, Seq<char>>,
)
    ensures
        ({
            let r = configured_ua_point(p, device_default, node);
            let raw = p.mode == Some(Mode::Raw) || (p.mode is None && device_default == Some(
                Mode::Raw,
            ));
            &&& r is Ok <==> node is Ok && (raw || p.datatype is Some)
            &&& r matches Ok(x) ==> x.node == node->Ok_0 && (x.mode == Mode::Raw <==> raw)
                && x.datatype == p.datatype && x.unit == text_of(p.unit) && x.access == access_of(
                text_of(p.access),
            )
        }),
{
}

/// An address names the node of its text where it has one, and else the one of its parts: of its
/// namespace, by a text or by a number.
pub proof fn addresses_name_their_nodes(a: NodeAddress, of_text: Option<NodeView>)
    ensures
        a.node_id is Some ==> (address_node(a, of_text) is Ok <==> of_text is Some),
        a.node_id is Some ==> (of_text matches Some(n) ==> address_node(a, of_text) == Ok::<
            NodeView,
            Seq<char>,
        >(n)),
        a.node_id is None && a.namespace is None ==> address_node(a, of_text) is Err,
        a.node_id is None ==> (address_node(a, of_text) matches Ok(n) ==> Some(n.namespace)
            == a.namespace),
        a.node_id is None && a.namespace is Some ==> (crate::json::view_of(a.identifier) matches Some(
            JsonView::Text(s),
        ) ==> (address_node(a, of_text) matches Ok(n) && n.identifier == IdentifierView::Text(s))),
        a.node_id is None && a.namespace is Some ==> (crate::json::view_of(a.identifier) matches Some(
            JsonView::Number(crate::json::Numeral::PosInt(u)),
        ) ==> (address_node(a, of_text) matches Ok(n) && (u <= u32::MAX ==> n.identifier
            == IdentifierView::Numeric(u as u32)))),
{
}

/// Each point that is asked for is either read or settled with a bad sample: read where the device
/// has it, and in the order that was asked for.
pub proof fn each_point_is_read_or_settled(model: Option<UaPoints>, ids: Seq<Seq<char>>, now: int)
    ensures
        known_points(model, ids).len() + unknown_samples(model, ids, now).len() == ids.len(),
        known_points(model, ids).map_values(|k: (Seq<char>, UaPointView)| k.0) == ids.filter(
            |id: Seq<char>| lookup(model, id) is Some,
        ),
        unknown_samples(model, ids, now).map_values(|s: SampleView| s.point) == ids.filter(
            |id: Seq<char>| lookup(model, id) is None,
        ),
        forall|i: int|
            0 <= i < known_points(model, ids).len() ==> lookup(
                model,
                (#[trigger] known_points(model, ids)[i]).0,
            ) == Some(known_points(model, ids)[i].1),
        forall|i: int|
            0 <= i < unknown_samples(model, ids, now).len() ==> (#[trigger] unknown_samples(
                model,
                ids,
                now,
            )[i]).quality == Quality::Bad,
    decreases ids.len(),
{
    let first = |k: (Seq<char>, UaPointView)| k.0;
    let named = |s: SampleView| s.point;
    let here = |id: Seq<char>| lookup(model, id) is Some;
    let gone = |id: Seq<char>| lookup(model, id) is None;
    reveal(Seq::filter);
    if ids.len() > 0 {
        let init = ids.drop_last();
        let id = ids.last();
        each_point_is_read_or_settled(model, init, now);
        match lookup(model, id) {
            Some(p) => {
                assert(known_points(model, init).push((id, p)).map_values(first)
                    =~= known_points(model, init).map_values(first).push(id));
            },
            None => {
                let s = bad_reading(id, None, "unknown point"@, now);
                assert(unknown_samples(model, init, now).push(s).map_values(named)
                    =~= unknown_samples(model, init, now).map_values(named).push(id));
            },
        }
    } else {
        assert(known_points(model, ids).map_values(first) =~= ids.filter(here));
        assert(unknown_samples(model, ids, now).map_values(named) =~= ids.filter(gone));
    }
}

/// What a server answers becomes one sample for each point that was read, in turn and of the time
/// of the poll: of the value at the point's place, or bad for all where there was no answer.
pub proof fn answers_become_the_samples_of_their_points(
    known: Seq<(Seq<char>, UaPointView)>,
    outcome: ReadOutcome,
    now: int,
    i: int,
)
    requires
        0 <= i < known.len(),
        outcome matches ReadOutcome::Values(v) ==> v@.len() == known.len(),
    ensures
        ({
            let r = read_samples(known, outcome, now);
            &&& r.len() == known.len()
            &&& r[i].point == known[i].0
            &&& r[i].ts == now
            &&& outcome matches ReadOutcome::Values(v) ==> r[i].value == reading_sample(
                known[i].0,
                known[i].1,
                v@[i].0,
                value_view(v@[i].1),
                now,
            ).value && r[i].quality == reading_sample(
                known[i].0,
                known[i].1,
                v@[i].0,
                value_view(v@[i].1),
                now,
            ).quality
            &&& !(outcome is Values) ==> r[i].quality == Quality::Bad && r[i].value is None
        }),
{
}

/// A device that is not connected is not read: each point that is asked for is bad.
pub proof fn nothing_is_read_of_a_device_that_is_not_connected(
    model: Option<UaPoints>,
    ids: Seq<Seq<char>>,
    now: int,
    i: int,
)
    requires
        0 <= i < ids.len(),
    ensures
        unconnected_samples(model, ids, now).len() == ids.len(),
        unconnected_samples(model, ids, now)[i].point == ids[i],
        unconnected_samples(model, ids, now)[i].quality == Quality::Bad,
        unconnected_samples(model, ids, now)[i].value is None,
{
}

/// A device's points are configured where each of them is, and then each stands under its id: the
/// last one of that id. Where one is wrong, the device is told what is wrong with the first such.
pub proof fn devices_are_configured_point_by_point(
    points: Seq<PointConfig>,
    device_default: Option<Mode>,
    addresses: Seq<NodeAddress>,
    n: int,
    i: int,
)
    requires
        0 <= i < n <= points.len(),
        forall|k: int| i < k < n ==> (#[trigger] points[k]).id@ != points[i].id@,
    ensures
        ({
            let r = configured_ua_points(points, device_default, addresses, n);
            let own = configured_ua_point(
                points[i],
                device_default,
                address_node(addresses[i], text_node(addresses[i])),
            );
            &&& r matches Ok(all) ==> (own matches Ok(p) && crate::keyed::field(all, points[i].id@)
                == Some(p))
            &&& own is Err && configured_ua_points(points, device_default, addresses, i) is Ok ==> (
            r matches Err(e) && own == Err::<UaPointView, Seq<char>>(e))
        }),
    decreases n,
{
    broadcast use crate::keyed::field_once_set;

    if i < n - 1 {
        devices_are_configured_point_by_point(points, device_default, addresses, n - 1, i);
        assert(points[n - 1].id@ != points[i].id@);
    }
}

/// There are as many samples as points that were read and values that came, and no more.
pub proof fn samples_are_of_points_with_values(
    known: Seq<(Seq<char>, UaPointView)>,
    values: Seq<(DataValue, Option<Value>)>,
    now: int,
    i: int,
)
    ensures
        ({
            let r = polled_samples(known, values, now);
            &&& r.len() <= known.len() && r.len() <= values.len()
            &&& r.len() == known.len() || r.len() == values.len()
            &&& 0 <= i < r.len() ==> r[i].point == known[i].0 && r[i].ts == now
        }),
{
}

} // verus!
