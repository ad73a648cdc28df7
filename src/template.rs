use vstd::prelude::*;
use crate::json::{Json, JsonV};
use vstd::std_specs::vec::axiom_vec_index_decreases;

verus! {

/// Line and column of a template element in its source.
#[derive(Debug, Clone, Copy)]
pub struct TemplateMapping(pub usize, pub usize);

/// A parsed template: its elements in order, an optional name, and the
/// source position of each element.
#[derive(Debug)]
pub struct Template {
    pub name: Option<String>,
    pub elements: Vec<TemplateElement>,
    pub mapping: Option<Vec<TemplateMapping>>,
}

/// A value handed to a helper, directive or expression: a name looked up in
/// the data, a literal, or a template whose rendered text is the value.
#[derive(Debug)]
pub enum Parameter {
    Name(String),
    Literal(Json),
    Subexpression(Box<Template>),
}

/// Block parameters introduced by `as |x|` or `as |k v|`.
#[derive(Debug)]
pub enum BlockParam {
    Single(Parameter),
    Pair(Parameter, Parameter),
}

/// A helper call as written in a template.
#[derive(Debug)]
pub struct HelperTemplate {
    pub name: String,
    pub params: Vec<Parameter>,
    pub hash: Vec<(String, Parameter)>,
    pub block_param: Option<BlockParam>,
    pub template: Option<Template>,
    pub inverse: Option<Template>,
    pub block: bool,
}

/// A directive or partial call as written in a template.
#[derive(Debug)]
pub struct DirectiveTemplate {
    pub name: Parameter,
    pub params: Vec<Parameter>,
    pub hash: Vec<(String, Parameter)>,
    pub template: Option<Template>,
}

/// One element of a parsed template.
#[derive(Debug)]
pub enum TemplateElement {
    RawString(String),
    Expression(Parameter),
    HTMLExpression(Parameter),
    HelperExpression(HelperTemplate),
    HelperBlock(HelperTemplate),
    DirectiveExpression(DirectiveTemplate),
    DirectiveBlock(DirectiveTemplate),
    PartialExpression(DirectiveTemplate),
    PartialBlock(DirectiveTemplate),
    Comment(String),
}


// ---------------------------------------------------------------------------
// The model of templates
pub enum ParamV {
    Name(Seq<char>),
    Literal(JsonV),
    Subexpression(TemplateV),
}

pub enum BlockParamV {
    Single(ParamV),
    Pair(ParamV, ParamV),
}

pub struct HelperV {
    pub name: Seq<char>,
    pub params: Seq<ParamV>,
    pub hash: Seq<(Seq<char>, ParamV)>,
    pub block_param: Option<BlockParamV>,
    pub template: Option<TemplateV>,
    pub inverse: Option<TemplateV>,
    pub block: bool,
}

pub struct DirectiveV {
    pub name: ParamV,
    pub params: Seq<ParamV>,
    pub hash: Seq<(Seq<char>, ParamV)>,
    pub template: Option<TemplateV>,
}

pub enum ElementV {
    RawString(Seq<char>),
    Expression(ParamV),
    HTMLExpression(ParamV),
    HelperExpression(HelperV),
    HelperBlock(HelperV),
    DirectiveExpression(DirectiveV),
    DirectiveBlock(DirectiveV),
    PartialExpression(DirectiveV),
    PartialBlock(DirectiveV),
    Comment(Seq<char>),
}

/// What a template is: its name, its elements and their positions.
pub struct TemplateV {
    pub name: Option<Seq<char>>,
    pub elements: Seq<ElementV>,
    pub mapping: Option<Seq<(usize, usize)>>,
}

pub open spec fn name_view(n: Option<String>) -> Option<Seq<char>> {
    match n {
        Some(s) => Some(s@),
        None => None,
    }
}

pub open spec fn mapping_view(m: Option<Vec<TemplateMapping>>) -> Option<Seq<(usize, usize)>> {
    match m {
        Some(v) => Some(v@.map_values(|x: TemplateMapping| (x.0, x.1))),
        None => None,
    }
}

pub open spec fn params_view(ps: &Vec<Parameter>) -> Seq<ParamV>
    decreases ps,
{
    Seq::new(
        ps.len() as nat,
        |i: int|
            if 0 <= i < ps.len() {
                ps@[i].view_p()
            } else {
                ParamV::Name(Seq::empty())
            },
    )
}

pub open spec fn hash_view(h: &Vec<(String, Parameter)>) -> Seq<(Seq<char>, ParamV)>
    decreases h,
{
    Seq::new(
        h.len() as nat,
        |i: int|
            if 0 <= i < h.len() {
                (h@[i].0@, h@[i].1.view_p())
            } else {
                (Seq::empty(), ParamV::Name(Seq::empty()))
            },
    )
}

pub open spec fn opt_template_view(t: &Option<Template>) -> Option<TemplateV>
    decreases t,
{
    match t {
        Some(x) => Some(x.view_t()),
        None => None,
    }
}

impl Template {
    pub open spec fn view_t(&self) -> TemplateV
        decreases self,
    {
        TemplateV {
            name: name_view(self.name),
            elements: Seq::new(
                self.elements.len() as nat,
                |i: int|
                    if 0 <= i < self.elements.len() {
                        self.elements@[i].view_e()
                    } else {
                        ElementV::Comment(Seq::empty())
                    },
            ),
            mapping: mapping_view(self.mapping),
        }
    }
}

impl Parameter {
    pub open spec fn view_p(&self) -> ParamV
        decreases self,
    {
        match self {
            Parameter::Name(n) => ParamV::Name(n@),
            Parameter::Literal(j) => ParamV::Literal(j@),
            Parameter::Subexpression(t) => ParamV::Subexpression((**t).view_t()),
        }
    }
}

impl BlockParam {
    pub open spec fn view_b(&self) -> BlockParamV
        decreases self,
    {
        match self {
            BlockParam::Single(p) => BlockParamV::Single(p.view_p()),
            BlockParam::Pair(a, b) => BlockParamV::Pair(a.view_p(), b.view_p()),
        }
    }
}

impl HelperTemplate {
    pub open spec fn view_h(&self) -> HelperV
        decreases self,
    {
        HelperV {
            name: self.name@,
            params: params_view(&self.params),
            hash: hash_view(&self.hash),
            block_param: match self.block_param {
                Some(b) => Some(b.view_b()),
                None => None,
            },
            template: opt_template_view(&self.template),
            inverse: opt_template_view(&self.inverse),
            block: self.block,
        }
    }
}

impl DirectiveTemplate {
    pub open spec fn view_d(&self) -> DirectiveV
        decreases self,
    {
        DirectiveV {
            name: self.name.view_p(),
            params: params_view(&self.params),
            hash: hash_view(&self.hash),
            template: opt_template_view(&self.template),
        }
    }
}

impl TemplateElement {
    pub open spec fn view_e(&self) -> ElementV
        decreases self,
    {
        match self {
            TemplateElement::RawString(s) => ElementV::RawString(s@),
            TemplateElement::Expression(p) => ElementV::Expression(p.view_p()),
            TemplateElement::HTMLExpression(p) => ElementV::HTMLExpression(p.view_p()),
            TemplateElement::HelperExpression(h) => ElementV::HelperExpression(h.view_h()),
            TemplateElement::HelperBlock(h) => ElementV::HelperBlock(h.view_h()),
            TemplateElement::DirectiveExpression(d) => ElementV::DirectiveExpression(d.view_d()),
            TemplateElement::DirectiveBlock(d) => ElementV::DirectiveBlock(d.view_d()),
            TemplateElement::PartialExpression(d) => ElementV::PartialExpression(d.view_d()),
            TemplateElement::PartialBlock(d) => ElementV::PartialBlock(d.view_d()),
            TemplateElement::Comment(s) => ElementV::Comment(s@),
        }
    }
}

fn dup_params(ps: &Vec<Parameter>) -> (r: Vec<Parameter>)
    ensures
        params_view(&r) == params_view(ps),
    decreases ps,
{
    let mut out: Vec<Parameter> = Vec::new();
    let mut i: usize = 0;
    while i < ps.len()
        invariant
            i <= ps.len(),
            out.len() == i,
            forall|j: int| 0 <= j < i ==> (#[trigger] out@[j]).view_p() == ps@[j].view_p(),
        decreases ps.len() - i,
    {
        proof {
            broadcast use axiom_vec_index_decreases;

            assert(decreases_to!(*ps => ps[i as int]));
        }
        out.push(ps[i].duplicate());
        i += 1;
    }
    assert(params_view(&out) =~= params_view(ps));
    out
}

fn dup_hash(h: &Vec<(String, Parameter)>) -> (r: Vec<(String, Parameter)>)
    ensures
        hash_view(&r) == hash_view(h),
    decreases h,
{
    let mut out: Vec<(String, Parameter)> = Vec::new();
    let mut i: usize = 0;
    while i < h.len()
        invariant
            i <= h.len(),
            out.len() == i,
            forall|j: int|
                0 <= j < i ==> (#[trigger] out@[j]).0@ == h@[j].0@ && out@[j].1.view_p()
                    == h@[j].1.view_p(),
        decreases h.len() - i,
    {
        proof {
            broadcast use axiom_vec_index_decreases;

            assert(decreases_to!(*h => h[i as int]));
        }
        let k = h[i].0.clone();
        out.push((k, h[i].1.duplicate()));
        i += 1;
    }
    assert(hash_view(&out) =~= hash_view(h));
    out
}

fn dup_template(t: &Option<Template>) -> (r: Option<Template>)
    ensures
        opt_template_view(&r) == opt_template_view(t),
    decreases t,
{
    match t {
        Some(x) => Some(x.duplicate()),
        None => None,
    }
}

fn dup_name(n: &Option<String>) -> (r: Option<String>)
    ensures
        r == *n,
{
    match n {
        Some(x) => Some(x.clone()),
        None => None,
    }
}

impl Template {
    /// A copy of the template.
    pub fn duplicate(&self) -> (r: Template)
        ensures
            r.view_t() == self.view_t(),
        decreases self,
    {
        let mut elements: Vec<TemplateElement> = Vec::new();
        let mut i: usize = 0;
        while i < self.elements.len()
            invariant
                i <= self.elements.len(),
                elements.len() == i,
                forall|j: int| 0 <= j < i ==> (#[trigger] elements@[j]).view_e() == self.elements@[j].view_e(),
                decreases_to!(*self => self.elements),
            decreases self.elements.len() - i,
        {
            proof {
                broadcast use axiom_vec_index_decreases;

                assert(decreases_to!(self.elements => self.elements[i as int]));
            }
            elements.push(self.elements[i].duplicate());
            i += 1;
        }
        let mapping = match &self.mapping {
            Some(m) => {
                let mut c: Vec<TemplateMapping> = Vec::new();
                let mut j: usize = 0;
                while j < m.len()
                    invariant
                        j <= m.len(),
                        c@ == m@.subrange(0, j as int),
                    decreases m.len() - j,
                {
                    c.push(m[j]);
                    j += 1;
                    assert(c@ =~= m@.subrange(0, j as int));
                }
                assert(c@ =~= m@);
                Some(c)
            },
            None => None,
        };
        let r = Template { name: dup_name(&self.name), elements, mapping };
        assert(r.view_t().elements =~= self.view_t().elements);
        r
    }
}

impl Parameter {
    /// A copy of the parameter.
    pub fn duplicate(&self) -> (r: Parameter)
        ensures
            r.view_p() == self.view_p(),
        decreases self,
    {
        match self {
            Parameter::Name(n) => Parameter::Name(n.clone()),
            Parameter::Literal(j) => Parameter::Literal(j.deep_clone()),
            Parameter::Subexpression(t) => Parameter::Subexpression(Box::new((**t).duplicate())),
        }
    }
}

impl BlockParam {
    /// A copy of the block parameters.
    pub fn duplicate(&self) -> (r: BlockParam)
        ensures
            r.view_b() == self.view_b(),
        decreases self,
    {
        match self {
            BlockParam::Single(p) => BlockParam::Single(p.duplicate()),
            BlockParam::Pair(a, b) => BlockParam::Pair(a.duplicate(), b.duplicate()),
        }
    }
}

impl HelperTemplate {
    /// A copy of the helper call.
    pub fn duplicate(&self) -> (r: HelperTemplate)
        ensures
            r.view_h() == self.view_h(),
        decreases self,
    {
        let block_param = match &self.block_param {
            Some(b) => Some(b.duplicate()),
            None => None,
        };
        HelperTemplate {
            name: self.name.clone(),
            params: dup_params(&self.params),
            hash: dup_hash(&self.hash),
            block_param,
            template: dup_template(&self.template),
            inverse: dup_template(&self.inverse),
            block: self.block,
        }
    }
}

impl DirectiveTemplate {
    /// A copy of the directive call.
    pub fn duplicate(&self) -> (r: DirectiveTemplate)
        ensures
            r.view_d() == self.view_d(),
        decreases self,
    {
        DirectiveTemplate {
            name: self.name.duplicate(),
            params: dup_params(&self.params),
            hash: dup_hash(&self.hash),
            template: dup_template(&self.template),
        }
    }
}

impl TemplateElement {
    /// A copy of the element.
    pub fn duplicate(&self) -> (r: TemplateElement)
        ensures
            r.view_e() == self.view_e(),
        decreases self,
    {
        match self {
            TemplateElement::RawString(s) => TemplateElement::RawString(s.clone()),
            TemplateElement::Expression(p) => TemplateElement::Expression(p.duplicate()),
            TemplateElement::HTMLExpression(p) => TemplateElement::HTMLExpression(p.duplicate()),
            TemplateElement::HelperExpression(h) => TemplateElement::HelperExpression(h.duplicate()),
            TemplateElement::HelperBlock(h) => TemplateElement::HelperBlock(h.duplicate()),
            TemplateElement::DirectiveExpression(d) => TemplateElement::DirectiveExpression(
                d.duplicate(),
            ),
            TemplateElement::DirectiveBlock(d) => TemplateElement::DirectiveBlock(d.duplicate()),
            TemplateElement::PartialExpression(d) => TemplateElement::PartialExpression(d.duplicate()),
            TemplateElement::PartialBlock(d) => TemplateElement::PartialBlock(d.duplicate()),
            TemplateElement::Comment(s) => TemplateElement::Comment(s.clone()),
        }
    }
}

impl Clone for Template {
    fn clone(&self) -> Self {
        self.duplicate()
    }
}

impl Clone for TemplateElement {
    fn clone(&self) -> Self {
        self.duplicate()
    }
}

impl Clone for Parameter {
    fn clone(&self) -> Self {
        self.duplicate()
    }
}

} // verus!
