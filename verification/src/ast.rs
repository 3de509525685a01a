//! The document tree the section grammar parses into: sections, fields,
//! or-types, components and their properties.

use vstd::prelude::*;

use crate::p1::{parse_error, Error};

verus! {

/// One parsed section: its name, optional kind, optional caption and
/// body, and nested sections.
#[derive(Debug)]
pub struct Section {
    pub name: String,
    pub kind: Option<String>,
    pub caption: Option<String>,
    pub body: Option<String>,
    pub sub_sections: Vec<Section>,
    pub line_number: usize,
}

/// One typed field: its name, kind, mutability, and optional value.
#[derive(Debug, Clone)]
pub struct Field {
    pub name: String,
    pub kind: String,
    pub mutable: bool,
    pub value: Option<String>,
    pub line_number: usize,
}

/// Does this raw name mark its field mutable?
pub open spec fn field_mutable_of(raw: Seq<char>) -> bool {
    raw.len() > 0 && raw[0] == '$'
}

/// The field name a raw section name carries: the mutability marker is
/// not part of it.
pub open spec fn field_name_of(raw: Seq<char>) -> Seq<char> {
    if field_mutable_of(raw) {
        raw.skip(1)
    } else {
        raw
    }
}

/// Splits a raw section name into the field name and its mutability.
fn field_parts(raw: &String) -> (r: (String, bool))
    ensures
        r.1 == field_mutable_of(raw@),
        r.0@ == field_name_of(raw@),
{
    let chars = crate::textutil::str_to_chars(raw.as_str());
    let mutable = chars.len() > 0 && chars[0] == '$';
    let name = if mutable {
        let mut out: Vec<char> = Vec::new();
        let n = chars.len();
        for i in 1..n
            invariant
                1 <= i <= n,
                n == chars@.len(),
                out@ == chars@.subrange(1, i as int),
        {
            out.push(chars[i]);
            proof {
                assert(out@ =~= chars@.subrange(1, i + 1));
            }
        }
        proof {
            assert(chars@.subrange(1, n as int) =~= chars@.skip(1));
        }
        crate::textutil::chars_to_string(&out)
    } else {
        raw.clone()
    };
    (name, mutable)
}

impl Field {
    /// Reads a field from a section: the section must carry a kind; a
    /// leading `$` marks the field mutable and is not part of the name;
    /// the caption, if any, is the value.
    pub fn from_p1(section: &Section, doc_id: &str) -> (r: Result<Field, Error>)
        ensures
            r is Ok <==> section.kind is Some,
            r matches Ok(f) ==> f.kind@ == section.kind->Some_0@ && f.line_number
                == section.line_number && f.name@ == field_name_of(section.name@) && f.mutable
                == field_mutable_of(section.name@) && (match (f.value, section.caption) {
                (Some(v), Some(c)) => v@ == c@,
                (None, None) => true,
                _ => false,
            }),
    {
        let kind = match &section.kind {
            Some(k) => k.clone(),
            None => {
                return parse_error("section is not a field", doc_id, section.line_number);
            },
        };
        let (name, mutable) = field_parts(&section.name);
        let value = match &section.caption {
            Some(c) => Some(c.clone()),
            None => None,
        };
        Ok(Field { name, kind, mutable, value, line_number: section.line_number })
    }
}

/// A record declaration: a name and its fields.
#[derive(Debug, Clone)]
pub struct Record {
    pub name: String,
    pub fields: Vec<Field>,
    pub line_number: usize,
}

impl Record {
    /// Is this section a record declaration?
    pub fn is_record(section: &Section) -> (r: bool)
        ensures
            r == (section.kind matches Some(k) && k@ == "record"@),
    {
        match &section.kind {
            Some(k) => crate::textutil::str_eq(k.as_str(), "record"),
            None => false,
        }
    }
}

/// An or-type: a closed choice of named variants.
#[derive(Debug)]
pub struct OrType {
    pub name: String,
    pub variants: Vec<OrTypeVariant>,
    pub line_number: usize,
}

/// One variant of an or-type: an anonymous record, a regular variant, or
/// a constant one.
#[derive(Debug, Clone)]
pub enum OrTypeVariant {
    AnonymousRecord(Record),
    Regular(Field),
    Constant(Field),
}

impl OrType {
    /// Is this section an or-type declaration?
    pub fn is_or_type(section: &Section) -> (r: bool)
        ensures
            r == (section.kind matches Some(k) && k@ == "or-type"@),
    {
        match &section.kind {
            Some(k) => crate::textutil::str_eq(k.as_str(), "or-type"),
            None => false,
        }
    }

    /// Reads an or-type from a section: one variant per nested section.
    pub fn from_p1(section: &Section, doc_id: &str) -> (r: Result<OrType, Error>)
        ensures
            r is Ok ==> (section.kind matches Some(k) && k@ == "or-type"@),
            r matches Ok(t) ==> t.name@ == section.name@ && t.line_number == section.line_number
                && t.variants@.len() == section.sub_sections@.len(),
    {
        if !Self::is_or_type(section) {
            return parse_error("section is not an or-type section", doc_id, section.line_number);
        }
        let mut variants: Vec<OrTypeVariant> = Vec::new();
        let n = section.sub_sections.len();
        for i in 0..n
            invariant
                n == section.sub_sections@.len(),
                variants@.len() == i,
        {
            match OrTypeVariant::from_p1(&section.sub_sections[i], doc_id) {
                Ok(v) => variants.push(v),
                Err(e) => {
                    return Err(e);
                },
            }
        }
        Ok(OrType { name: section.name.clone(), variants, line_number: section.line_number })
    }

    /// The line the or-type was declared on.
    pub fn line_number(&self) -> (r: usize)
        ensures
            r == self.line_number,
    {
        self.line_number
    }
}

impl OrTypeVariant {
    /// A variant holding an anonymous record.
    pub fn new_record(record: Record) -> (r: OrTypeVariant)
        ensures
            r == OrTypeVariant::AnonymousRecord(record),
    {
        OrTypeVariant::AnonymousRecord(record)
    }

    /// A regular variant.
    pub fn new_variant(variant: Field) -> (r: OrTypeVariant)
        ensures
            r == OrTypeVariant::Regular(variant),
    {
        OrTypeVariant::Regular(variant)
    }

    /// A constant variant.
    pub fn new_constant(variant: Field) -> (r: OrTypeVariant)
        ensures
            r == OrTypeVariant::Constant(variant),
    {
        OrTypeVariant::Constant(variant)
    }

    /// The variant's own name, whichever shape it has.
    pub open spec fn name_spec(&self) -> Seq<char> {
        match self {
            OrTypeVariant::AnonymousRecord(r) => r.name@,
            OrTypeVariant::Regular(f) => f.name@,
            OrTypeVariant::Constant(f) => f.name@,
        }
    }

    /// Renames the variant, keeping its shape and every other field.
    pub fn set_name(&mut self, name: &str)
        ensures
            final(self).name_spec() == name@,
            (match *old(self) {
                OrTypeVariant::AnonymousRecord(r0) => (*final(self) matches OrTypeVariant::AnonymousRecord(
                    r1,
                ) && r1.fields == r0.fields && r1.line_number == r0.line_number),
                OrTypeVariant::Regular(f0) => (*final(self) matches OrTypeVariant::Regular(f1)
                    && f1.kind == f0.kind && f1.mutable == f0.mutable && f1.value == f0.value
                    && f1.line_number == f0.line_number),
                OrTypeVariant::Constant(f0) => (*final(self) matches OrTypeVariant::Constant(f1)
                    && f1.kind == f0.kind && f1.mutable == f0.mutable && f1.value == f0.value
                    && f1.line_number == f0.line_number),
            }),
    {
        match self {
            OrTypeVariant::AnonymousRecord(r) => {
                r.name = String::from_str(name);
            },
            OrTypeVariant::Regular(f) => {
                f.name = String::from_str(name);
            },
            OrTypeVariant::Constant(f) => {
                f.name = String::from_str(name);
            },
        }
    }

    /// The variant's name.
    pub fn name(&self) -> (r: String)
        ensures
            r@ == self.name_spec(),
    {
        match self {
            OrTypeVariant::AnonymousRecord(r) => r.name.clone(),
            OrTypeVariant::Regular(f) => f.name.clone(),
            OrTypeVariant::Constant(f) => f.name.clone(),
        }
    }

    /// Is this section a constant variant: its name starts `constant `?
    pub fn is_constant(section: &Section) -> (r: bool)
        ensures
            r == (section.name@.len() >= "constant "@.len() && section.name@.take(
                "constant "@.len() as int,
            ) == "constant "@),
    {
        let chars = crate::textutil::str_to_chars(section.name.as_str());
        let tag = crate::textutil::str_to_chars("constant ");
        let tn = tag.len();
        if chars.len() < tn {
            return false;
        }
        for k in 0..tn
            invariant
                tn == tag@.len(),
                tag@ == "constant "@,
                tn <= chars@.len(),
                chars@ == section.name@,
                forall|j: int| 0 <= j < k ==> chars@[j] == tag@[j],
        {
            if chars[k] != tag[k] {
                proof {
                    assert(section.name@.take(tag@.len() as int)[k as int] != tag@[k as int]);
                }
                return false;
            }
        }
        proof {
            assert(section.name@.take(tag@.len() as int) =~= tag@);
        }
        true
    }

    /// Reads one variant: a record section becomes an anonymous record; a
    /// section named `constant `-something becomes a constant variant with
    /// the marker and following spaces stripped before field parsing; any
    /// other section becomes a constant variant of the section as it is.
    pub fn from_p1(section: &Section, doc_id: &str) -> (r: Result<OrTypeVariant, Error>)
        ensures
            (section.kind matches Some(k) && k@ == "record"@) ==> (r matches Ok(v) ==> (
            v matches OrTypeVariant::AnonymousRecord(rec) && rec.name@ == section.name@
                && rec.line_number == section.line_number)),
            !(section.kind matches Some(k) && k@ == "record"@) ==> ((r is Ok <==> section.kind
                is Some) && (r matches Ok(v) ==> (v matches OrTypeVariant::Constant(f)
                && f.kind@ == section.kind->Some_0@ && f.line_number == section.line_number
                && f.name@ == field_name_of(
                if constant_marked(section.name@) {
                    constant_stripped(section.name@)
                } else {
                    section.name@
                },
            )))),
    {
        if Record::is_record(section) {
            let mut fields: Vec<Field> = Vec::new();
            let n = section.sub_sections.len();
            for i in 0..n
                invariant
                    n == section.sub_sections@.len(),
                    section.kind matches Some(k) && k@ == "record"@,
            {
                match Field::from_p1(&section.sub_sections[i], doc_id) {
                    Ok(f) => fields.push(f),
                    Err(e) => {
                        return Err(e);
                    },
                }
            }
            Ok(
                OrTypeVariant::AnonymousRecord(
                    Record {
                        name: section.name.clone(),
                        fields,
                        line_number: section.line_number,
                    },
                ),
            )
        } else {
            let kind = match &section.kind {
                Some(k) => k.clone(),
                None => {
                    return parse_error("section is not a field", doc_id, section.line_number);
                },
            };
            let raw = if Self::is_constant(section) {
                strip_constant_marker(&section.name)
            } else {
                section.name.clone()
            };
            let (name, mutable) = field_parts(&raw);
            let value = match &section.caption {
                Some(c) => Some(c.clone()),
                None => None,
            };
            Ok(
                OrTypeVariant::Constant(
                    Field { name, kind, mutable, value, line_number: section.line_number },
                ),
            )
        }
    }
}

/// Does the section name carry the constant marker?
pub open spec fn constant_marked(name: Seq<char>) -> bool {
    name.len() >= "constant "@.len() && name.take("constant "@.len() as int) == "constant "@
}

/// The text with its leading spaces stripped.
pub open spec fn strip_leading_spaces(v: Seq<char>) -> Seq<char>
    decreases v.len(),
{
    if v.len() > 0 && v[0] == ' ' {
        strip_leading_spaces(v.drop_first())
    } else {
        v
    }
}

/// The variant name behind the constant marker: the marker and any
/// further spaces are stripped.
pub open spec fn constant_stripped(name: Seq<char>) -> Seq<char> {
    strip_leading_spaces(name.skip("constant "@.len() as int))
}

proof fn lemma_strip_spaces_at(v: Seq<char>, i: int)
    requires
        0 <= i <= v.len(),
        forall|j: int| 0 <= j < i ==> v[j] == ' ',
        i < v.len() ==> v[i] != ' ',
    ensures
        strip_leading_spaces(v) == v.skip(i),
    decreases i,
{
    if i == 0 {
        assert(strip_leading_spaces(v) =~= v.skip(0));
    } else {
        assert(v[0] == ' ');
        lemma_strip_spaces_at(v.drop_first(), i - 1);
        assert(v.drop_first().skip(i - 1) =~= v.skip(i));
    }
}

/// Strips the constant marker and the spaces after it from a name.
fn strip_constant_marker(name: &String) -> (r: String)
    requires
        constant_marked(name@),
    ensures
        r@ == constant_stripped(name@),
{
    let chars = crate::textutil::str_to_chars(name.as_str());
    let marker = crate::textutil::str_to_chars("constant ");
    let mut i = marker.len();
    let n = chars.len();
    while i < n && chars[i] == ' '
        invariant
            "constant "@.len() <= i as int <= n,
            n == chars@.len(),
            chars@ == name@,
            forall|j: int| "constant "@.len() <= j < i ==> chars@[j] == ' ',
        decreases n - i,
    {
        i = i + 1;
    }
    let mut out: Vec<char> = Vec::new();
    for k in i..n
        invariant
            i <= k <= n,
            n == chars@.len(),
            out@ == chars@.subrange(i as int, k as int),
    {
        out.push(chars[k]);
        proof {
            assert(out@ =~= chars@.subrange(i as int, k + 1));
        }
    }
    proof {
        let tail = name@.skip("constant "@.len() as int);
        lemma_strip_spaces_at(tail, i - "constant "@.len());
        assert(tail.skip(i - "constant "@.len()) =~= name@.skip(i as int));
        assert(out@ =~= name@.skip(i as int));
    }
    crate::textutil::chars_to_string(&out)
}

/// Where a component property's value came from.
#[derive(Debug, Clone)]
pub enum PropertySource {
    Caption,
    Body,
    Header { name: String, mutable: bool },
}

impl PropertySource {
    /// Do two sources address the same slot? Headers compare by name
    /// alone; caption and body each match only themselves.
    pub fn is_equal(&self, other: &PropertySource) -> (r: bool)
        ensures
            r == match self {
                PropertySource::Caption => *other is Caption,
                PropertySource::Body => *other is Body,
                PropertySource::Header { name, .. } => (other matches PropertySource::Header {
                    name: o,
                    ..
                } && o@ == name@),
            },
    {
        match self {
            PropertySource::Caption => matches!(other, PropertySource::Caption),
            PropertySource::Body => matches!(other, PropertySource::Body),
            PropertySource::Header { name, .. } => match other {
                PropertySource::Header { name: other_name, .. } => other_name.eq(name),
                _ => false,
            },
        }
    }
}

/// One property handed to a component.
#[derive(Debug, Clone)]
pub struct Property {
    pub value: Option<String>,
    pub source: PropertySource,
    pub condition: Option<String>,
    pub line_number: usize,
}

/// A loop a component iterates with: what it loops on, and the alias each
/// item is bound to.
#[derive(Debug, Clone)]
pub struct Loop {
    pub on: String,
    pub alias: String,
    pub line_number: usize,
}

/// One event handler of a component.
#[derive(Debug, Clone)]
pub struct Event {
    pub name: String,
    pub action: String,
    pub line_number: usize,
}

/// One component invocation: its name, properties, optional loop and
/// condition, events, and children.
#[derive(Debug)]
pub struct Component {
    pub name: String,
    pub properties: Vec<Property>,
    pub iteration: Option<Loop>,
    pub condition: Option<String>,
    pub events: Vec<Event>,
    pub children: Vec<Component>,
    pub line_number: usize,
}

impl Component {
    /// The line the component was invoked on.
    pub fn line_number(&self) -> (r: usize)
        ensures
            r == self.line_number,
    {
        self.line_number
    }
}

/// A component definition: its name, arguments, and the component it
/// stands for.
#[derive(Debug)]
pub struct ComponentDefinition {
    pub name: String,
    pub arguments: Vec<Field>,
    pub definition: Component,
    pub line_number: usize,
}

impl ComponentDefinition {
    /// Is this section a component definition?
    pub fn is_component_definition(section: &Section) -> (r: bool)
        ensures
            r == (section.kind matches Some(k) && k@ == "component"@),
    {
        match &section.kind {
            Some(k) => crate::textutil::str_eq(k.as_str(), "component"),
            None => false,
        }
    }

    /// The line the component was defined on.
    pub fn line_number(&self) -> (r: usize)
        ensures
            r == self.line_number,
    {
        self.line_number
    }
}

} // verus!
