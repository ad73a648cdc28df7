use vstd::prelude::*;
use std::collections::VecDeque;
use crate::json::{
    Json, JsonV, Object, obj_get, obj_insert, push_all, push_nat, nat_text, render_spec, str_eq,
};
use crate::context::{Context, nav_spec, roots_view};
use crate::path::{chars_of, string_of};
use crate::template::{
    TemplateV, BlockParam, DirectiveTemplate, HelperTemplate, Parameter, Template, TemplateElement, TemplateMapping,
};
use vstd::std_specs::vec::axiom_vec_index_decreases;

verus! {

// ---------------------------------------------------------------------------
// Errors
/// An error met while rendering, with the template and position where it
/// arose once those are known.
#[derive(Debug)]
pub struct RenderError {
    pub desc: String,
    pub template_name: Option<String>,
    pub line_no: Option<usize>,
    pub column_no: Option<usize>,
}

/// The error after an enclosing template frame has seen it: position and
/// template name are filled in only where they are still unset.
pub open spec fn enriched(e: RenderError, name: Option<String>, at: Option<TemplateMapping>) -> RenderError {
    RenderError {
        desc: e.desc,
        template_name: if e.template_name is None {
            name
        } else {
            e.template_name
        },
        line_no: if e.line_no is None && at is Some {
            Some(mapping_line(at->0))
        } else {
            e.line_no
        },
        column_no: if e.line_no is None && at is Some {
            Some(mapping_column(at->0))
        } else {
            e.column_no
        },
    }
}

pub open spec fn mapping_line(m: TemplateMapping) -> usize {
    m.0
}

pub open spec fn mapping_column(m: TemplateMapping) -> usize {
    m.1
}

pub open spec fn unnamed_chars() -> Seq<char> {
    seq!['U', 'n', 'n', 'a', 'm', 'e', 'd', ' ', 't', 'e', 'm', 'p', 'l', 'a', 't', 'e']
}

/// The text of an error: with a known line and column,
/// `Error rendering "<name>" line L, col C: <desc>`; otherwise the description.
pub open spec fn error_text(e: RenderError) -> Seq<char> {
    if e.line_no is Some && e.column_no is Some {
        seq!['E', 'r', 'r', 'o', 'r', ' ', 'r', 'e', 'n', 'd', 'e', 'r', 'i', 'n', 'g', ' ', '"']
            + (if e.template_name is Some {
            e.template_name->0@
        } else {
            unnamed_chars()
        }) + seq!['"', ' ', 'l', 'i', 'n', 'e', ' '] + nat_text(e.line_no->0 as nat) + seq![
            ',',
            ' ',
            'c',
            'o',
            'l',
            ' ',
        ] + nat_text(e.column_no->0 as nat) + seq![':', ' '] + e.desc@
    } else {
        e.desc@
    }
}

/// Once an inner frame has set the line, an outer frame leaves line and
/// column as they are, whatever position it holds.
pub proof fn lemma_enrichment_one_shot(
    e: RenderError,
    inner_name: Option<String>,
    inner_at: Option<TemplateMapping>,
    outer_name: Option<String>,
    outer_at: Option<TemplateMapping>,
)
    requires
        enriched(e, inner_name, inner_at).line_no is Some,
    ensures
        enriched(enriched(e, inner_name, inner_at), outer_name, outer_at).line_no == enriched(
            e,
            inner_name,
            inner_at,
        ).line_no,
        enriched(enriched(e, inner_name, inner_at), outer_name, outer_at).column_no == enriched(
            e,
            inner_name,
            inner_at,
        ).column_no,
        enriched(e, inner_name, inner_at).template_name is Some ==> enriched(
            enriched(e, inner_name, inner_at),
            outer_name,
            outer_at,
        ).template_name == enriched(e, inner_name, inner_at).template_name,
{
}

fn copy_name(n: &Option<String>) -> (r: Option<String>)
    ensures
        r == *n,
{
    match n {
        Some(x) => Some(x.clone()),
        None => None,
    }
}

impl RenderError {
    /// An error with the given description and no position.
    pub fn new(desc: &str) -> (r: RenderError)
        ensures
            r.desc@ == desc@,
            r.template_name is None,
            r.line_no is None,
            r.column_no is None,
    {
        RenderError {
            desc: String::from_str(desc),
            template_name: None,
            line_no: None,
            column_no: None,
        }
    }

    /// The description of the error.
    pub fn description(&self) -> (r: &str)
        ensures
            r@ == self.desc@,
    {
        self.desc.as_str()
    }

    /// Fills in the template name and the position, each only where unset.
    pub fn with_location(self, name: &Option<String>, at: Option<TemplateMapping>) -> (r: RenderError)
        ensures
            r == enriched(self, *name, at),
    {
        let mut e = self;
        if e.line_no.is_none() {
            match at {
                Some(m) => {
                    e.line_no = Some(m.0);
                    e.column_no = Some(m.1);
                },
                None => {},
            }
        }
        if e.template_name.is_none() {
            e.template_name = copy_name(name);
        }
        e
    }

    /// The error as text.
    pub fn to_string(&self) -> (r: String)
        ensures
            r@ == error_text(*self),
    {
        match (self.line_no, self.column_no) {
            (Some(line), Some(col)) => {
                let mut s = String::new();
                push_all(&mut s, "Error rendering \"");
                match &self.template_name {
                    Some(n) => push_all(&mut s, n.as_str()),
                    None => push_all(&mut s, "Unnamed template"),
                }
                push_all(&mut s, "\" line ");
                push_nat(&mut s, line as u64);
                push_all(&mut s, ", col ");
                push_nat(&mut s, col as u64);
                push_all(&mut s, ": ");
                push_all(&mut s, self.desc.as_str());
                proof {
                    reveal_strlit("Error rendering \"");
                    reveal_strlit("Unnamed template");
                    reveal_strlit("\" line ");
                    reveal_strlit(", col ");
                    reveal_strlit(": ");
                }
                assert(s@ =~= error_text(*self));
                s
            },
            _ => self.desc.clone(),
        }
    }
}

// ---------------------------------------------------------------------------
// Local variable names
pub open spec fn parent_prefix() -> Seq<char> {
    seq!['@', '.', '.', '/']
}

/// `@x` becomes `@../x`: the first character gives way to `@../`.
pub open spec fn promoted_key(k: Seq<char>) -> Seq<char> {
    parent_prefix() + k.subrange(if k.len() > 0 {
        1
    } else {
        0
    }, k.len() as int)
}

pub open spec fn has_parent_prefix(k: Seq<char>) -> bool {
    k.len() >= 4 && k.subrange(0, 4) == parent_prefix()
}

/// `@../x` becomes `@x`.
pub open spec fn demoted_key(k: Seq<char>) -> Seq<char> {
    seq!['@'] + k.subrange(4, k.len() as int)
}

pub open spec fn promote_spec(m: Seq<(Seq<char>, JsonV)>) -> Seq<(Seq<char>, JsonV)> {
    m.map_values(|e: (Seq<char>, JsonV)| (promoted_key(e.0), e.1))
}

/// The entries whose key has the parent prefix, with one level of it removed.
pub open spec fn demote_spec(m: Seq<(Seq<char>, JsonV)>) -> Seq<(Seq<char>, JsonV)>
    decreases m.len(),
{
    if m.len() == 0 {
        m
    } else if has_parent_prefix(m.last().0) {
        demote_spec(m.drop_last()).push((demoted_key(m.last().0), m.last().1))
    } else {
        demote_spec(m.drop_last())
    }
}

/// Demoting what was just promoted gives back every local variable, when
/// each name has the form `@x`.
pub proof fn lemma_promote_demote(m: Seq<(Seq<char>, JsonV)>)
    requires
        forall|i: int| 0 <= i < m.len() ==> (#[trigger] m[i]).0.len() >= 1 && m[i].0[0] == '@',
    ensures
        demote_spec(promote_spec(m)) == m,
    decreases m.len(),
{
    if m.len() > 0 {
        let p = promote_spec(m);
        assert(p.drop_last() =~= promote_spec(m.drop_last()));
        lemma_promote_demote(m.drop_last());
        let k = m.last().0;
        assert(m[m.len() - 1] == m.last());
        assert(p.last().0 == promoted_key(k));
        assert(promoted_key(k).subrange(0, 4) =~= parent_prefix());
        assert(demoted_key(promoted_key(k)) =~= k);
        assert(m.drop_last().push(m.last()) =~= m);
    }
}

pub open spec fn locals_model(v: Seq<(String, Json)>) -> Seq<(Seq<char>, JsonV)> {
    v.map_values(|e: (String, Json)| (e.0@, e.1@))
}

pub open spec fn contexts_model(v: Seq<Context>) -> Seq<JsonV> {
    v.map_values(|c: Context| c@)
}

pub open spec fn partials_model(v: Seq<(String, Template)>) -> Seq<(Seq<char>, TemplateV)> {
    v.map_values(|e: (String, Template)| (e.0@, e.1.view_t()))
}

pub open spec fn template_names(v: Seq<(String, Template)>) -> Seq<Seq<char>> {
    v.map_values(|e: (String, Template)| e.0@)
}

/// Index of the first entry at or after `i` named `k`, or -1.
pub open spec fn name_index_from(v: Seq<Seq<char>>, k: Seq<char>, i: int) -> int
    decreases v.len() - i,
{
    if i < 0 || i >= v.len() {
        -1
    } else if v[i] == k {
        i
    } else {
        name_index_from(v, k, i + 1)
    }
}

/// The first block context in which `name` navigates to a non-null value,
/// looking from position `i` on.
pub open spec fn block_lookup(blocks: Seq<JsonV>, roots: Seq<Seq<char>>, name: Seq<char>, i: int) -> Option<JsonV>
    decreases blocks.len() - i,
{
    if i < 0 || i >= blocks.len() {
        None
    } else if !(nav_spec(blocks[i], seq!['.'], roots, name) is Null) {
        Some(nav_spec(blocks[i], seq!['.'], roots, name))
    } else {
        block_lookup(blocks, roots, name, i + 1)
    }
}

/// How deeply partials may nest in one render.
pub const MAX_PARTIAL_DEPTH: usize = 64;

// ---------------------------------------------------------------------------
// Render state
/// The state of one render: the current path, stacked roots, local
/// variables, block contexts, inline partials, and the output so far.
#[derive(Debug)]
pub struct RenderContext {
    partials: Vec<(String, Template)>,
    path: String,
    local_path_root: VecDeque<String>,
    local_variables: Vec<(String, Json)>,
    block_context: VecDeque<Context>,
    context: Context,
    partial_depth: usize,
    /// The output written so far.
    pub writer: String,
    /// Name of the template being rendered.
    pub current_template: Option<String>,
    /// Name of the template the render started from.
    pub root_template: Option<String>,
    /// Set while a subexpression is rendered: expressions are not escaped.
    pub disable_escape: bool,
}

impl RenderContext {
    pub closed spec fn path_v(&self) -> Seq<char> {
        self.path@
    }

    pub closed spec fn roots_v(&self) -> Seq<Seq<char>> {
        roots_view(self.local_path_root@)
    }

    pub closed spec fn locals_v(&self) -> Seq<(Seq<char>, JsonV)> {
        locals_model(self.local_variables@)
    }

    pub closed spec fn blocks_v(&self) -> Seq<JsonV> {
        contexts_model(self.block_context@)
    }

    pub closed spec fn data_v(&self) -> JsonV {
        self.context@
    }

    pub closed spec fn partial_names(&self) -> Seq<Seq<char>> {
        template_names(self.partials@)
    }

    /// The inline partials, by name, in order of registration.
    pub closed spec fn partials_v(&self) -> Seq<(Seq<char>, TemplateV)> {
        partials_model(self.partials@)
    }

    /// The output written so far.
    pub closed spec fn out_v(&self) -> Seq<char> {
        self.writer@
    }

    pub closed spec fn current_name(&self) -> Option<String> {
        self.current_template
    }

    pub closed spec fn root_name(&self) -> Option<String> {
        self.root_template
    }

    /// Whether escaping of expressions is switched off.
    pub closed spec fn escape_off(&self) -> bool {
        self.disable_escape
    }

    /// How many more levels of partials may open below this state.
    pub closed spec fn depth_left(&self) -> nat {
        self.partial_depth as nat
    }

    /// The parts of the state that name lookup reads are those of `o`.
    pub open spec fn same_scope(&self, o: &RenderContext) -> bool {
        &&& self.path_v() == o.path_v()
        &&& self.roots_v() == o.roots_v()
        &&& self.locals_v() == o.locals_v()
        &&& self.blocks_v() == o.blocks_v()
        &&& self.data_v() == o.data_v()
        &&& self.partial_names() == o.partial_names()
        &&& self.partials_v() == o.partials_v()
        &&& self.depth_left() == o.depth_left()
        &&& self.escape_off() == o.escape_off()
    }

    /// A fresh state over a copy of `ctx`: path `.`, nothing stacked, no
    /// output.
    pub fn new(ctx: &Context) -> (r: RenderContext)
        ensures
            r.path_v() == seq!['.'],
            r.roots_v() == Seq::<Seq<char>>::empty(),
            r.locals_v() == Seq::<(Seq<char>, JsonV)>::empty(),
            r.blocks_v() == Seq::<JsonV>::empty(),
            r.partial_names() == Seq::<Seq<char>>::empty(),
            r.data_v() == ctx@,
            r.depth_left() == MAX_PARTIAL_DEPTH,
            r.out_v() == Seq::<char>::empty(),
            r.current_name() is None,
            r.root_name() is None,
            !r.escape_off(),
    {
        let r = RenderContext {
            partials: Vec::new(),
            path: String::from_str("."),
            local_path_root: VecDeque::new(),
            local_variables: Vec::new(),
            block_context: VecDeque::new(),
            context: Context::wraps(ctx.data()),
            partial_depth: MAX_PARTIAL_DEPTH,
            writer: String::new(),
            current_template: None,
            root_template: None,
            disable_escape: false,
        };
        proof {
            reveal_strlit(".");
        }
        assert(r.path_v() =~= seq!['.']);
        assert(r.roots_v() =~= Seq::<Seq<char>>::empty());
        assert(r.locals_v() =~= Seq::<(Seq<char>, JsonV)>::empty());
        assert(r.blocks_v() =~= Seq::<JsonV>::empty());
        assert(r.partial_names() =~= Seq::<Seq<char>>::empty());
        r
    }

    /// A child state that writes on where this one stopped: it takes this
    /// state's output, and `rejoin` hands it back. Everything else is copied,
    /// so other changes to the child do not reach this state.
    pub fn derive(&mut self) -> (r: RenderContext)
        ensures
            r.same_scope(old(self)),
            r.out_v() == old(self).out_v(),
            r.current_name() == old(self).current_name(),
            r.root_name() == old(self).root_name(),
            final(self).same_scope(old(self)),
            final(self).out_v() == Seq::<char>::empty(),
            final(self).current_name() == old(self).current_name(),
    {
        let mut child = self.derive_capture();
        std::mem::swap(&mut child.writer, &mut self.writer);
        child
    }

    /// Takes back the output of a child made by `derive`; nothing else of the
    /// child is kept.
    pub fn rejoin(&mut self, child: RenderContext)
        ensures
            final(self).out_v() == child.out_v(),
            final(self).same_scope(old(self)),
            final(self).current_name() == old(self).current_name(),
            final(self).root_name() == old(self).root_name(),
    {
        self.writer = child.writer;
    }

    /// A child state with copies of everything but the output, which starts
    /// empty as a capture buffer: changes to the child do not reach this state.
    pub fn derive_capture(&self) -> (r: RenderContext)
        ensures
            r.same_scope(self),
            r.out_v() == Seq::<char>::empty(),
            r.current_name() == self.current_name(),
            r.root_name() == self.root_name(),
    {
        let mut partials: Vec<(String, Template)> = Vec::new();
        let mut i: usize = 0;
        while i < self.partials.len()
            invariant
                i <= self.partials.len(),
                partials.len() == i,
                template_names(partials@) == template_names(self.partials@).subrange(0, i as int),
                partials_model(partials@) == partials_model(self.partials@).subrange(0, i as int),
            decreases self.partials.len() - i,
        {
            let k = self.partials[i].0.clone();
            let t = self.partials[i].1.duplicate();
            let ghost prev = partials@;
            partials.push((k, t));
            assert(partials@[i as int].0 == self.partials@[i as int].0);
            assert(template_names(partials@) =~= template_names(prev).push(self.partials@[i as int].0@));
            assert(partials_model(partials@) =~= partials_model(self.partials@).subrange(0, i + 1));
            i += 1;
            assert(template_names(partials@) =~= template_names(self.partials@).subrange(
                0,
                i as int,
            ));
        }
        assert(template_names(self.partials@).subrange(0, i as int) =~= template_names(
            self.partials@,
        ));
        assert(partials_model(self.partials@).subrange(0, i as int) =~= partials_model(
            self.partials@,
        ));
        let mut roots: VecDeque<String> = VecDeque::new();
        let mut j: usize = 0;
        while j < self.local_path_root.len()
            invariant
                j <= self.local_path_root.len(),
                roots.len() == j,
                roots_view(roots@) == roots_view(self.local_path_root@).subrange(0, j as int),
            decreases self.local_path_root.len() - j,
        {
            roots.push_back(self.local_path_root[j].clone());
            j += 1;
            assert(roots_view(roots@) =~= roots_view(self.local_path_root@).subrange(
                0,
                j as int,
            ));
        }
        assert(roots_view(self.local_path_root@).subrange(0, j as int) =~= roots_view(
            self.local_path_root@,
        ));
        let mut locals: Vec<(String, Json)> = Vec::new();
        let mut k: usize = 0;
        while k < self.local_variables.len()
            invariant
                k <= self.local_variables.len(),
                locals.len() == k,
                locals_model(locals@) == locals_model(self.local_variables@).subrange(0, k as int),
            decreases self.local_variables.len() - k,
        {
            let n = self.local_variables[k].0.clone();
            let v = self.local_variables[k].1.deep_clone();
            locals.push((n, v));
            k += 1;
            assert(locals_model(locals@) =~= locals_model(self.local_variables@).subrange(
                0,
                k as int,
            ));
        }
        assert(locals_model(self.local_variables@).subrange(0, k as int) =~= locals_model(
            self.local_variables@,
        ));
        let mut blocks: VecDeque<Context> = VecDeque::new();
        let mut b: usize = 0;
        while b < self.block_context.len()
            invariant
                b <= self.block_context.len(),
                blocks.len() == b,
                contexts_model(blocks@) == contexts_model(self.block_context@).subrange(0, b as int),
            decreases self.block_context.len() - b,
        {
            blocks.push_back(Context::wraps(self.block_context[b].data()));
            b += 1;
            assert(contexts_model(blocks@) =~= contexts_model(self.block_context@).subrange(
                0,
                b as int,
            ));
        }
        assert(contexts_model(self.block_context@).subrange(0, b as int) =~= contexts_model(
            self.block_context@,
        ));
        RenderContext {
            partials,
            path: self.path.clone(),
            local_path_root: roots,
            local_variables: locals,
            block_context: blocks,
            context: Context::wraps(self.context.data()),
            partial_depth: self.partial_depth,
            writer: String::new(),
            current_template: copy_name(&self.current_template),
            root_template: copy_name(&self.root_template),
            disable_escape: self.disable_escape,
        }
    }

    fn find_partial(&self, name: &str) -> (r: Option<usize>)
        ensures
            r is None <==> name_index_from(self.partial_names(), name@, 0) < 0,
            r is Some ==> r->0 == name_index_from(self.partial_names(), name@, 0) && r->0
                < self.partials.len(),
    {
        let ghost names = self.partial_names();
        let mut i: usize = 0;
        while i < self.partials.len()
            invariant
                i <= self.partials.len(),
                names == template_names(self.partials@),
                name_index_from(names, name@, 0) == name_index_from(names, name@, i as int),
            decreases self.partials.len() - i,
        {
            if str_eq(self.partials[i].0.as_str(), name) {
                return Some(i);
            }
            i += 1;
        }
        None
    }

    /// A copy of the inline partial registered under `name`, if any.
    pub fn get_partial(&self, name: &str) -> (r: Option<Template>)
        ensures
            r is Some <==> name_index_from(self.partial_names(), name@, 0) >= 0,
            r is Some ==> r->0.view_t() == self.partials_v()[name_index_from(
                self.partial_names(),
                name@,
                0,
            )].1,
    {
        match self.find_partial(name) {
            Some(i) => Some(self.partials[i].1.duplicate()),
            None => None,
        }
    }

    /// Registers an inline partial, replacing one of the same name.
    pub fn set_partial(&mut self, name: String, result: Template)
        ensures
            final(self).partial_names() == (if name_index_from(
                old(self).partial_names(),
                name@,
                0,
            ) >= 0 {
                old(self).partial_names()
            } else {
                old(self).partial_names().push(name@)
            }),
            name_index_from(final(self).partial_names(), name@, 0) >= 0,
            final(self).partials_v() == (if name_index_from(old(self).partial_names(), name@, 0)
                >= 0 {
                old(self).partials_v().update(
                    name_index_from(old(self).partial_names(), name@, 0),
                    (
                        old(self).partials_v()[name_index_from(
                            old(self).partial_names(),
                            name@,
                            0,
                        )].0,
                        result.view_t(),
                    ),
                )
            } else {
                old(self).partials_v().push((name@, result.view_t()))
            }),
            final(self).path_v() == old(self).path_v(),
            final(self).roots_v() == old(self).roots_v(),
            final(self).locals_v() == old(self).locals_v(),
            final(self).blocks_v() == old(self).blocks_v(),
            final(self).data_v() == old(self).data_v(),
            final(self).out_v() == old(self).out_v(),
    {
        proof {
            lemma_name_index_range(self.partial_names(), name@, 0);
        }
        match self.find_partial(name.as_str()) {
            Some(i) => {
                let k = self.partials[i].0.clone();
                let ghost rv = result.view_t();
                self.partials.set(i, (k, result));
                assert(self.partial_names() =~= old(self).partial_names());
                assert(self.partials_v() =~= old(self).partials_v().update(
                    i as int,
                    (old(self).partials_v()[i as int].0, rv),
                ));
            },
            None => {
                let ghost rv = result.view_t();
                let ghost nv = name@;
                self.partials.push((name, result));
                assert(self.partial_names() =~= old(self).partial_names().push(nv));
                assert(self.partials_v() =~= old(self).partials_v().push((nv, rv)));
            },
        }
        proof {
            lemma_name_index_range(old(self).partial_names(), name@, 0);
            let v = self.partial_names();
            if name_index_from(old(self).partial_names(), name@, 0) >= 0 {
                let j = name_index_from(old(self).partial_names(), name@, 0);
                assert(v[j] == name@);
            } else {
                assert(v[v.len() - 1] == name@);
            }
            lemma_name_index_found(v, name@);
        }
    }

    /// The current base path.
    pub fn get_path(&self) -> (r: &String)
        ensures
            r@ == self.path_v(),
    {
        &self.path
    }

    pub fn set_path(&mut self, path: String)
        ensures
            final(self).path_v() == path@,
            final(self).roots_v() == old(self).roots_v(),
            final(self).locals_v() == old(self).locals_v(),
            final(self).blocks_v() == old(self).blocks_v(),
            final(self).data_v() == old(self).data_v(),
            final(self).partial_names() == old(self).partial_names(),
            final(self).depth_left() == old(self).depth_left(),
            final(self).escape_off() == old(self).escape_off(),
            final(self).out_v() == old(self).out_v(),
    {
        self.path = path;
    }

    /// The stack of roots that leading `../` segments start from.
    pub fn get_local_path_root(&self) -> (r: &VecDeque<String>)
        ensures
            roots_view(r@) == self.roots_v(),
    {
        &self.local_path_root
    }

    /// Stacks a root on top: it becomes the first entry.
    pub fn push_local_path_root(&mut self, path: String)
        ensures
            final(self).roots_v() == seq![path@] + old(self).roots_v(),
            final(self).path_v() == old(self).path_v(),
            final(self).locals_v() == old(self).locals_v(),
            final(self).blocks_v() == old(self).blocks_v(),
            final(self).data_v() == old(self).data_v(),
    {
        self.local_path_root.push_front(path);
        assert(self.roots_v() =~= seq![path@] + old(self).roots_v());
    }

    /// Removes the top root, if any.
    pub fn pop_local_path_root(&mut self)
        ensures
            final(self).roots_v() == (if old(self).roots_v().len() > 0 {
                old(self).roots_v().drop_first()
            } else {
                old(self).roots_v()
            }),
            final(self).path_v() == old(self).path_v(),
            final(self).locals_v() == old(self).locals_v(),
            final(self).blocks_v() == old(self).blocks_v(),
            final(self).data_v() == old(self).data_v(),
    {
        let _ = self.local_path_root.pop_front();
        assert(self.roots_v() =~= (if old(self).roots_v().len() > 0 {
            old(self).roots_v().drop_first()
        } else {
            old(self).roots_v()
        }));
    }

    fn find_local(&self, name: &str) -> (r: Option<usize>)
        ensures
            r is None <==> crate::json::key_index(self.locals_v(), name@) < 0,
            r is Some ==> r->0 == crate::json::key_index(self.locals_v(), name@) && r->0
                < self.local_variables.len(),
    {
        let ghost m = self.locals_v();
        let mut i: usize = 0;
        while i < self.local_variables.len()
            invariant
                i <= self.local_variables.len(),
                m == locals_model(self.local_variables@),
                crate::json::key_index(m, name@) == crate::json::index_from(m, name@, i as int),
            decreases self.local_variables.len() - i,
        {
            if str_eq(self.local_variables[i].0.as_str(), name) {
                return Some(i);
            }
            i += 1;
        }
        None
    }

    /// Stores a local variable, replacing one of the same name.
    pub fn set_local_var(&mut self, name: String, value: Json)
        ensures
            final(self).locals_v() == obj_insert(old(self).locals_v(), name@, value@),
            final(self).path_v() == old(self).path_v(),
            final(self).roots_v() == old(self).roots_v(),
            final(self).blocks_v() == old(self).blocks_v(),
            final(self).data_v() == old(self).data_v(),
    {
        proof {
            crate::json::lemma_index_from_range(self.locals_v(), name@, 0);
        }
        match self.find_local(name.as_str()) {
            Some(i) => {
                let k = self.local_variables[i].0.clone();
                self.local_variables.set(i, (k, value));
                assert(self.locals_v() =~= obj_insert(old(self).locals_v(), name@, value@));
            },
            None => {
                self.local_variables.push((name, value));
                assert(self.locals_v() =~= obj_insert(old(self).locals_v(), name@, value@));
            },
        }
    }

    /// Removes every local variable.
    pub fn clear_local_vars(&mut self)
        ensures
            final(self).locals_v() == Seq::<(Seq<char>, JsonV)>::empty(),
            final(self).path_v() == old(self).path_v(),
            final(self).roots_v() == old(self).roots_v(),
            final(self).blocks_v() == old(self).blocks_v(),
            final(self).data_v() == old(self).data_v(),
    {
        self.local_variables = Vec::new();
        assert(self.locals_v() =~= Seq::<(Seq<char>, JsonV)>::empty());
    }

    /// Moves every local variable one scope out: `@x` becomes `@../x`.
    pub fn promote_local_vars(&mut self)
        ensures
            final(self).locals_v() == promote_spec(old(self).locals_v()),
            final(self).path_v() == old(self).path_v(),
            final(self).roots_v() == old(self).roots_v(),
            final(self).blocks_v() == old(self).blocks_v(),
            final(self).data_v() == old(self).data_v(),
    {
        let mut out: Vec<(String, Json)> = Vec::new();
        let mut i: usize = 0;
        while i < self.local_variables.len()
            invariant
                i <= self.local_variables.len(),
                self.local_variables == old(self).local_variables,
                out.len() == i,
                locals_model(out@) == promote_spec(locals_model(self.local_variables@)).subrange(
                    0,
                    i as int,
                ),
            decreases self.local_variables.len() - i,
        {
            let cs = chars_of(self.local_variables[i].0.as_str());
            let from: usize = if cs.len() > 0 {
                1
            } else {
                0
            };
            let rest = string_of(&cs, from, cs.len());
            let mut key = String::new();
            push_all(&mut key, "@../");
            push_all(&mut key, rest.as_str());
            proof {
                reveal_strlit("@../");
            }
            assert(key@ =~= promoted_key(self.local_variables@[i as int].0@));
            let v = self.local_variables[i].1.deep_clone();
            out.push((key, v));
            i += 1;
            assert(locals_model(out@) =~= promote_spec(locals_model(self.local_variables@)).subrange(
                0,
                i as int,
            ));
        }
        assert(promote_spec(locals_model(self.local_variables@)).subrange(0, i as int)
            =~= promote_spec(locals_model(self.local_variables@)));
        self.local_variables = out;
    }

    /// Moves local variables one scope in: `@../x` becomes `@x`, and those
    /// without a parent scope are dropped.
    pub fn demote_local_vars(&mut self)
        ensures
            final(self).locals_v() == demote_spec(old(self).locals_v()),
            final(self).path_v() == old(self).path_v(),
            final(self).roots_v() == old(self).roots_v(),
            final(self).blocks_v() == old(self).blocks_v(),
            final(self).data_v() == old(self).data_v(),
    {
        let ghost m = locals_model(self.local_variables@);
        let mut out: Vec<(String, Json)> = Vec::new();
        let mut i: usize = 0;
        while i < self.local_variables.len()
            invariant
                i <= self.local_variables.len(),
                self.local_variables == old(self).local_variables,
                m == locals_model(self.local_variables@),
                locals_model(out@) == demote_spec(m.subrange(0, i as int)),
            decreases self.local_variables.len() - i,
        {
            let cs = chars_of(self.local_variables[i].0.as_str());
            let ghost k = cs@;
            assert(m.subrange(0, i + 1).drop_last() =~= m.subrange(0, i as int));
            assert(m.subrange(0, i + 1).last() == m[i as int]);
            if cs.len() >= 4 && cs[0] == '@' && cs[1] == '.' && cs[2] == '.' && cs[3] == '/' {
                assert(has_parent_prefix(k)) by {
                    assert(k.subrange(0, 4) =~= parent_prefix());
                }
                let rest = string_of(&cs, 4, cs.len());
                let mut key = String::new();
                key.push('@');
                push_all(&mut key, rest.as_str());
                assert(key@ =~= demoted_key(k));
                let v = self.local_variables[i].1.deep_clone();
                out.push((key, v));
                assert(locals_model(out@) =~= demote_spec(m.subrange(0, i + 1)));
            } else {
                assert(!has_parent_prefix(k)) by {
                    if k.len() >= 4 {
                        assert(k.subrange(0, 4)[0] == k[0]);
                        assert(k.subrange(0, 4)[1] == k[1]);
                        assert(k.subrange(0, 4)[2] == k[2]);
                        assert(k.subrange(0, 4)[3] == k[3]);
                    }
                }
            }
            i += 1;
        }
        assert(m.subrange(0, i as int) =~= m);
        self.local_variables = out;
    }

    /// The local variable named `name`, if any.
    pub fn get_local_var(&self, name: &String) -> (r: Option<&Json>)
        ensures
            r is Some <==> obj_get(self.locals_v(), name@) is Some,
            r is Some ==> r->0@ == obj_get(self.locals_v(), name@)->0,
    {
        proof {
            crate::json::lemma_index_from_range(self.locals_v(), name@, 0);
        }
        match self.find_local(name.as_str()) {
            Some(i) => Some(&self.local_variables[i].1),
            None => None,
        }
    }

    /// The output so far, for writing.
    pub fn writer(&mut self) -> (r: &mut String)
        ensures
            r@ == old(self).out_v(),
            final(self).out_v() == final(r)@,
            final(self).path_v() == old(self).path_v(),
            final(self).roots_v() == old(self).roots_v(),
            final(self).locals_v() == old(self).locals_v(),
            final(self).blocks_v() == old(self).blocks_v(),
            final(self).data_v() == old(self).data_v(),
    {
        &mut self.writer
    }

    /// Stacks a block context holding a copy of `ctx`.
    pub fn push_block_context(&mut self, ctx: &Json)
        ensures
            final(self).blocks_v() == seq![ctx@] + old(self).blocks_v(),
            final(self).path_v() == old(self).path_v(),
            final(self).roots_v() == old(self).roots_v(),
            final(self).locals_v() == old(self).locals_v(),
            final(self).data_v() == old(self).data_v(),
    {
        self.block_context.push_front(Context::wraps(ctx));
        assert(self.blocks_v() =~= seq![ctx@] + old(self).blocks_v());
    }

    /// Removes the top block context, if any.
    pub fn pop_block_context(&mut self)
        ensures
            final(self).blocks_v() == (if old(self).blocks_v().len() > 0 {
                old(self).blocks_v().drop_first()
            } else {
                old(self).blocks_v()
            }),
            final(self).path_v() == old(self).path_v(),
            final(self).roots_v() == old(self).roots_v(),
            final(self).locals_v() == old(self).locals_v(),
            final(self).data_v() == old(self).data_v(),
    {
        let _ = self.block_context.pop_front();
        assert(self.blocks_v() =~= (if old(self).blocks_v().len() > 0 {
            old(self).blocks_v().drop_first()
        } else {
            old(self).blocks_v()
        }));
    }

    /// The first non-null value of `local_path` in the block contexts, from
    /// the top of the stack down.
    pub fn evaluate_in_block_context(&self, local_path: &str) -> (r: Option<&Json>)
        ensures
            r is Some <==> block_lookup(self.blocks_v(), self.roots_v(), local_path@, 0) is Some,
            r is Some ==> r->0@ == block_lookup(
                self.blocks_v(),
                self.roots_v(),
                local_path@,
                0,
            )->0,
    {
        let ghost blocks = self.blocks_v();
        let ghost roots = self.roots_v();
        let mut i: usize = 0;
        while i < self.block_context.len()
            invariant
                i <= self.block_context.len(),
                blocks == contexts_model(self.block_context@),
                roots == roots_view(self.local_path_root@),
                block_lookup(blocks, roots, local_path@, 0) == block_lookup(
                    blocks,
                    roots,
                    local_path@,
                    i as int,
                ),
            decreases self.block_context.len() - i,
        {
            let v = self.block_context[i].navigate(".", &self.local_path_root, local_path);
            proof {
                reveal_strlit(".");
            }
            assert("."@ =~= seq!['.']);
            if !v.is_null() {
                return Some(v);
            }
            i += 1;
        }
        None
    }

    /// Whether the template being rendered is named `p`.
    pub fn is_current_template(&self, p: &str) -> (r: bool)
        ensures
            r == (self.current_name() is Some && self.current_name()->0@ == p@),
    {
        match &self.current_template {
            Some(s) => str_eq(s.as_str(), p),
            None => false,
        }
    }

    /// The data the render reads.
    pub fn context(&self) -> (r: &Context)
        ensures
            r@ == self.data_v(),
    {
        &self.context
    }

    /// The data the render reads, for change in place.
    pub fn context_mut(&mut self) -> (r: &mut Context)
        ensures
            r@ == old(self).data_v(),
            final(self).data_v() == final(r)@,
            final(self).path_v() == old(self).path_v(),
            final(self).roots_v() == old(self).roots_v(),
            final(self).locals_v() == old(self).locals_v(),
            final(self).blocks_v() == old(self).blocks_v(),
    {
        &mut self.context
    }
}

proof fn lemma_name_index_range(v: Seq<Seq<char>>, k: Seq<char>, i: int)
    requires
        0 <= i,
    ensures
        name_index_from(v, k, i) == -1 || (i <= name_index_from(v, k, i) < v.len() && v[name_index_from(v, k, i)] == k),
        name_index_from(v, k, i) == -1 ==> forall|j: int| i <= j < v.len() ==> v[j] != k,
    decreases v.len() - i,
{
    if i < v.len() && v[i] != k {
        lemma_name_index_range(v, k, i + 1);
    }
}

proof fn lemma_name_index_found(v: Seq<Seq<char>>, k: Seq<char>)
    requires
        exists|j: int| 0 <= j < v.len() && v[j] == k,
    ensures
        name_index_from(v, k, 0) >= 0,
{
    lemma_name_index_range(v, k, 0);
}

// ---------------------------------------------------------------------------
// Values handed to helpers
/// A resolved value, with the path it was read from when it was read from
/// the data.
#[derive(Debug)]
pub struct ContextJson {
    path: Option<String>,
    value: Json,
}

impl ContextJson {
    pub closed spec fn path_v(&self) -> Option<Seq<char>> {
        match self.path {
            Some(p) => Some(p@),
            None => None,
        }
    }

    pub closed spec fn value_v(&self) -> JsonV {
        self.value@
    }

    /// The path the value was read from; `None` for a literal or a computed
    /// value.
    pub fn path(&self) -> (r: Option<&String>)
        ensures
            r is Some <==> self.path_v() is Some,
            r is Some ==> r->0@ == self.path_v()->0,
    {
        match &self.path {
            Some(p) => Some(p),
            None => None,
        }
    }

    /// The first segment of the path: the text before the first `.` or `/`.
    pub fn path_root(&self) -> (r: Option<String>)
        ensures
            r is Some <==> self.path_v() is Some,
            r is Some ==> r->0@ == self.path_v()->0.subrange(0, first_sep(self.path_v()->0, 0)),
    {
        match &self.path {
            Some(p) => {
                let cs = chars_of(p.as_str());
                let mut i: usize = 0;
                while i < cs.len() && cs[i] != '.' && cs[i] != '/'
                    invariant
                        i <= cs.len(),
                        first_sep(cs@, 0) == first_sep(cs@, i as int),
                    decreases cs.len() - i,
                {
                    i += 1;
                }
                proof {
                    lemma_first_sep(cs@, 0);
                }
                Some(string_of(&cs, 0, i))
            },
            None => None,
        }
    }

    /// The value.
    pub fn value(&self) -> (r: &Json)
        ensures
            r@ == self.value_v(),
    {
        &self.value
    }
}

/// Index of the first `.` or `/` at or after `i`, or the length.
pub open spec fn first_sep(s: Seq<char>, i: int) -> int
    decreases s.len() - i,
{
    if i < 0 || i >= s.len() || s[i] == '.' || s[i] == '/' {
        i
    } else {
        first_sep(s, i + 1)
    }
}

proof fn lemma_first_sep(s: Seq<char>, i: int)
    requires
        0 <= i <= s.len(),
    ensures
        i <= first_sep(s, i) <= s.len(),
    decreases s.len() - i,
{
    if i < s.len() && s[i] != '.' && s[i] != '/' {
        lemma_first_sep(s, i + 1);
    }
}

// ---------------------------------------------------------------------------
// Escaping
/// What HTML escaping makes of one character.
pub open spec fn escape_char(c: char) -> Seq<char> {
    if c == '<' {
        seq!['&', 'l', 't', ';']
    } else if c == '>' {
        seq!['&', 'g', 't', ';']
    } else if c == '"' {
        seq!['&', 'q', 'u', 'o', 't', ';']
    } else if c == '&' {
        seq!['&', 'a', 'm', 'p', ';']
    } else {
        seq![c]
    }
}

pub open spec fn html_escape_spec(s: Seq<char>) -> Seq<char>
    decreases s.len(),
{
    if s.len() == 0 {
        s
    } else {
        html_escape_spec(s.drop_last()) + escape_char(s.last())
    }
}

/// Escapes `<`, `>`, `"` and `&` for HTML output.
pub fn html_escape(data: &str) -> (r: String)
    ensures
        r@ == html_escape_spec(data@),
{
    let cs = chars_of(data);
    let mut out = String::new();
    let mut i: usize = 0;
    while i < cs.len()
        invariant
            i <= cs.len(),
            cs@ == data@,
            out@ == html_escape_spec(cs@.subrange(0, i as int)),
        decreases cs.len() - i,
    {
        let c = cs[i];
        if c == '<' {
            push_all(&mut out, "&lt;");
        } else if c == '>' {
            push_all(&mut out, "&gt;");
        } else if c == '"' {
            push_all(&mut out, "&quot;");
        } else if c == '&' {
            push_all(&mut out, "&amp;");
        } else {
            out.push(c);
        }
        proof {
            reveal_strlit("&lt;");
            reveal_strlit("&gt;");
            reveal_strlit("&quot;");
            reveal_strlit("&amp;");
            assert(cs@.subrange(0, i + 1).drop_last() =~= cs@.subrange(0, i as int));
        }
        i += 1;
        assert(out@ =~= html_escape_spec(cs@.subrange(0, i as int)));
    }
    assert(cs@.subrange(0, i as int) =~= cs@);
    out
}

// ---------------------------------------------------------------------------
// The registry surface
/// What rendering needs from the registry: named templates, the escape
/// function, and the user's helpers and directives. Helpers and directives
/// may write output, change the render state and render templates in turn.
pub trait Registry {
    /// What the escape function makes of a text: HTML escaping unless an
    /// implementation says otherwise.
    open spec fn escape_spec(&self, text: Seq<char>) -> Seq<char> {
        html_escape_spec(text)
    }

    /// Escapes the text that an expression writes. The render contracts rest
    /// on an implementation keeping this promise; nothing here checks it.
    fn escape(&self, text: &str) -> (r: String)
        ensures
            r@ == self.escape_spec(text@),
    ;

    /// The template registered under `name`, if any.
    fn get_template(&self, name: &str) -> Option<&Template>;

    /// Calls the helper registered under `name`; `None` when there is none.
    fn call_helper(&self, name: &str, h: &Helper, rc: &mut RenderContext) -> Option<
        Result<(), RenderError>,
    >;

    /// Calls the directive registered under `name`; `None` when there is none.
    fn call_decorator(&self, name: &str, d: &Directive, rc: &mut RenderContext) -> Option<
        Result<(), RenderError>,
    >;
}

// ---------------------------------------------------------------------------
// The model of plain templates
/// What `name` resolves to: a local variable (no path), else the first block
/// context that holds it, else the data at the current path.
pub open spec fn name_lookup(rc: RenderContext, name: Seq<char>) -> (Option<Seq<char>>, JsonV) {
    match obj_get(rc.locals_v(), name) {
        Some(v) => (None, v),
        None => match block_lookup(rc.blocks_v(), rc.roots_v(), name, 0) {
            Some(v) => (Some(name), v),
            None => (Some(name), nav_spec(rc.data_v(), rc.path_v(), rc.roots_v(), name)),
        },
    }
}

/// A name or a literal: resolved without rendering anything.
pub open spec fn plain_param(p: Parameter) -> bool {
    p is Name || p is Literal
}

/// A value that was computed, not read: no path, and a string.
pub open spec fn computed_text(v: (Option<Seq<char>>, JsonV)) -> bool {
    v.0 is None && v.1 is Str
}

/// A parameter whose value the library fixes alone: a name, a literal, or a
/// subexpression over a plain template.
pub open spec fn resolvable(p: Parameter) -> bool {
    plain_param(p) || (p is Subexpression && all_plain(p->Subexpression_0.elements@))
}

/// What a resolvable parameter resolves to: a subexpression gives, without
/// a path, the text its template writes with escaping off.
pub open spec fn resolved_value<R: Registry>(reg: &R, rc: RenderContext, p: Parameter) -> (
    Option<Seq<char>>,
    JsonV,
) {
    match p {
        Parameter::Subexpression(t) => (None, JsonV::Str(template_text(reg, rc, false, t.elements@))),
        _ => plain_value(rc, p),
    }
}

pub open spec fn plain_value(rc: RenderContext, p: Parameter) -> (Option<Seq<char>>, JsonV) {
    match p {
        Parameter::Name(n) => name_lookup(rc, n@),
        Parameter::Literal(j) => (None, j@),
        Parameter::Subexpression(_) => (None, JsonV::Null),
    }
}

/// Raw text, a comment, or an expression over a plain parameter.
pub open spec fn plain_element(e: TemplateElement) -> bool {
    match e {
        TemplateElement::RawString(_) => true,
        TemplateElement::Comment(_) => true,
        TemplateElement::Expression(p) => plain_param(p),
        TemplateElement::HTMLExpression(p) => plain_param(p),
        _ => false,
    }
}

pub open spec fn all_plain(els: Seq<TemplateElement>) -> bool {
    forall|i: int| 0 <= i < els.len() ==> plain_element(#[trigger] els[i])
}

/// A value's text, through the escape function unless escaping is off.
pub open spec fn escaped_text<R: Registry>(reg: &R, escape_off: bool, v: JsonV) -> Seq<char> {
    if escape_off {
        render_spec(v)
    } else {
        reg.escape_spec(render_spec(v))
    }
}

/// The text a plain element writes; `escaping` says whether expressions go
/// through the escape function.
pub open spec fn element_text<R: Registry>(
    reg: &R,
    rc: RenderContext,
    escaping: bool,
    e: TemplateElement,
) -> Seq<char> {
    match e {
        TemplateElement::RawString(s) => s@,
        TemplateElement::Expression(p) => if escaping {
            reg.escape_spec(render_spec(plain_value(rc, p).1))
        } else {
            render_spec(plain_value(rc, p).1)
        },
        TemplateElement::HTMLExpression(p) => render_spec(plain_value(rc, p).1),
        _ => Seq::empty(),
    }
}

pub open spec fn template_text<R: Registry>(
    reg: &R,
    rc: RenderContext,
    escaping: bool,
    els: Seq<TemplateElement>,
) -> Seq<char>
    decreases els.len(),
{
    if els.len() == 0 {
        Seq::empty()
    } else {
        template_text(reg, rc, escaping, els.drop_last()) + element_text(
            reg,
            rc,
            escaping,
            els.last(),
        )
    }
}

/// The text of plain elements depends only on the parts of the state that
/// name lookup reads.
proof fn lemma_template_text_scope<R: Registry>(
    reg: &R,
    a: RenderContext,
    b: RenderContext,
    escaping: bool,
    els: Seq<TemplateElement>,
)
    requires
        a.path_v() == b.path_v(),
        a.roots_v() == b.roots_v(),
        a.locals_v() == b.locals_v(),
        a.blocks_v() == b.blocks_v(),
        a.data_v() == b.data_v(),
    ensures
        template_text(reg, a, escaping, els) == template_text(reg, b, escaping, els),
    decreases els.len(),
{
    if els.len() > 0 {
        lemma_template_text_scope(reg, a, b, escaping, els.drop_last());
    }
}

/// During a subexpression escaping is off: a plain template captured there
/// writes each value's own text, and the escape function is never applied.
pub proof fn lemma_subexpression_unescaped<R: Registry>(
    reg: &R,
    rc: RenderContext,
    els: Seq<TemplateElement>,
)
    requires
        all_plain(els),
    ensures
        template_text(reg, rc, false, els) == template_text(reg, rc, false, els.map_values(
            |e: TemplateElement|
                match e {
                    TemplateElement::Expression(p) => TemplateElement::HTMLExpression(p),
                    _ => e,
                },
        )),
    decreases els.len(),
{
    let f = |e: TemplateElement|
        match e {
            TemplateElement::Expression(p) => TemplateElement::HTMLExpression(p),
            _ => e,
        };
    let m = els.map_values(f);
    if els.len() > 0 {
        assert(m.drop_last() =~= els.drop_last().map_values(f));
        lemma_subexpression_unescaped(reg, rc, els.drop_last());
        assert(m.last() == f(els.last()));
    }
}

// ---------------------------------------------------------------------------
// Helper and directive views
pub open spec fn resolved_view(c: ContextJson) -> (Option<Seq<char>>, JsonV) {
    (c.path_v(), c.value_v())
}

/// What a helper sees of its call: the name, the parameters and named
/// parameters resolved once, its templates and block parameters.
pub struct Helper<'a> {
    name: &'a str,
    params: Vec<ContextJson>,
    hash: Vec<(String, ContextJson)>,
    block_param: &'a Option<BlockParam>,
    template: &'a Option<Template>,
    inverse: &'a Option<Template>,
    block: bool,
}

impl<'a> Helper<'a> {
    pub closed spec fn name_v(&self) -> Seq<char> {
        self.name@
    }

    pub closed spec fn params_v(&self) -> Seq<(Option<Seq<char>>, JsonV)> {
        self.params@.map_values(|c: ContextJson| resolved_view(c))
    }

    pub closed spec fn hash_v(&self) -> Seq<(Seq<char>, (Option<Seq<char>>, JsonV))> {
        self.hash@.map_values(|e: (String, ContextJson)| (e.0@, resolved_view(e.1)))
    }

    pub closed spec fn is_block_v(&self) -> bool {
        self.block
    }

    pub closed spec fn template_v(&self) -> Option<Template> {
        *self.template
    }

    pub closed spec fn inverse_v(&self) -> Option<Template> {
        *self.inverse
    }

    pub closed spec fn block_param_v(&self) -> Option<BlockParam> {
        *self.block_param
    }

    /// Resolves every parameter and named parameter of the call, in order;
    /// the first failure is returned.
    fn from_template<R: Registry>(
        ht: &'a HelperTemplate,
        registry: &R,
        rc: &RenderContext,
        fuel: usize,
    ) -> (r: Result<Helper<'a>, RenderError>)
        ensures
            r is Ok ==> r->Ok_0.name_v() == ht.name@ && r->Ok_0.is_block_v() == ht.block
                && r->Ok_0.params_v().len() == ht.params.len(),
            r is Ok ==> r->Ok_0.template_v() == ht.template && r->Ok_0.inverse_v() == ht.inverse
                && r->Ok_0.block_param_v() == ht.block_param,
            r is Ok ==> forall|i: int|
                0 <= i < ht.params.len() && (#[trigger] ht.params@[i]) is Subexpression
                    ==> computed_text(r->Ok_0.params_v()[i]),
            r is Ok ==> forall|i: int|
                0 <= i < ht.hash.len() && (#[trigger] ht.hash@[i]).1 is Subexpression
                    ==> computed_text(r->Ok_0.hash_v()[i].1),
            r is Ok ==> forall|i: int|
                0 <= i < ht.params.len() && resolvable(#[trigger] ht.params@[i])
                    ==> r->Ok_0.params_v()[i] == resolved_value(registry, *rc, ht.params@[i]),
            r is Ok ==> r->Ok_0.hash_v().len() == ht.hash.len() && forall|i: int|
                0 <= i < ht.hash.len() ==> (#[trigger] r->Ok_0.hash_v()[i]).0 == ht.hash@[i].0@
                    && (resolvable(ht.hash@[i].1) ==> r->Ok_0.hash_v()[i].1 == resolved_value(registry, *rc,
                    ht.hash@[i].1,
                )),
            (forall|i: int| 0 <= i < ht.params.len() ==> resolvable(#[trigger] ht.params@[i]))
                && (forall|i: int| 0 <= i < ht.hash.len() ==> resolvable(#[trigger] ht.hash@[i].1))
                ==> r is Ok,
        decreases fuel, ht, 0nat,
    {
        let params = expand_all(&ht.params, registry, rc, fuel)?;
        let hash = expand_hash(&ht.hash, registry, rc, fuel)?;
        Ok(
            Helper {
                name: ht.name.as_str(),
                params,
                hash,
                block_param: &ht.block_param,
                template: &ht.template,
                inverse: &ht.inverse,
                block: ht.block,
            },
        )
    }

    /// The helper's name.
    pub fn name(&self) -> (r: &str)
        ensures
            r@ == self.name_v(),
    {
        self.name
    }

    /// All parameters, resolved.
    pub fn params(&self) -> (r: &Vec<ContextJson>)
        ensures
            r@.map_values(|c: ContextJson| resolved_view(c)) == self.params_v(),
    {
        &self.params
    }

    /// The parameter at `idx`, resolved.
    pub fn param(&self, idx: usize) -> (r: Option<&ContextJson>)
        ensures
            r is Some <==> idx < self.params_v().len(),
            r is Some ==> resolved_view(*r->0) == self.params_v()[idx as int],
    {
        if idx < self.params.len() {
            Some(&self.params[idx])
        } else {
            None
        }
    }

    /// All named parameters, resolved, in the order written.
    pub fn hash(&self) -> (r: &Vec<(String, ContextJson)>)
        ensures
            r@.map_values(|e: (String, ContextJson)| (e.0@, resolved_view(e.1))) == self.hash_v(),
    {
        &self.hash
    }

    /// The first named parameter called `key`, resolved.
    pub fn hash_get(&self, key: &str) -> (r: Option<&ContextJson>)
        ensures
            r is Some <==> exists|i: int| 0 <= i < self.hash_v().len() && #[trigger] self.hash_v()[i].0 == key@,
            r is Some ==> exists|i: int|
                0 <= i < self.hash_v().len() && #[trigger] self.hash_v()[i].0 == key@
                    && resolved_view(*r->0) == self.hash_v()[i].1,
    {
        let r = hash_lookup(&self.hash, key);
        proof {
            assert forall|i: int| 0 <= i < self.hash@.len() implies #[trigger] self.hash_v()[i] == (
                self.hash@[i].0@,
                resolved_view(self.hash@[i].1),
            ) by {}
            if r is Some {
                let i = choose|i: int|
                    0 <= i < self.hash@.len() && #[trigger] self.hash@[i].0@ == key@ && *r->0
                        == self.hash@[i].1;
                assert(self.hash_v()[i].0 == key@);
            } else {
                assert forall|i: int| 0 <= i < self.hash_v().len() implies #[trigger] self.hash_v()[i].0 != key@ by {
                    assert(self.hash@[i].0@ != key@);
                }
            }
        }
        r
    }

    /// The main template of a block helper.
    pub fn template(&self) -> (r: Option<&Template>)
        ensures
            r is Some <==> self.template_v() is Some,
            r is Some ==> *r->0 == self.template_v()->0,
    {
        match self.template {
            Some(t) => Some(t),
            None => None,
        }
    }

    /// The `else` template, if any.
    pub fn inverse(&self) -> (r: Option<&Template>)
        ensures
            r is Some <==> self.inverse_v() is Some,
            r is Some ==> *r->0 == self.inverse_v()->0,
    {
        match self.inverse {
            Some(t) => Some(t),
            None => None,
        }
    }

    /// Whether the call is a block `{{#h}}...{{/h}}`.
    pub fn is_block(&self) -> (r: bool)
        ensures
            r == self.is_block_v(),
    {
        self.block
    }

    /// The single block parameter, when it is a name.
    pub fn block_param(&self) -> (r: Option<&str>)
        ensures
            r is Some <==> (self.block_param_v() is Some && self.block_param_v()->0 is Single
                && self.block_param_v()->0->Single_0 is Name),
            r is Some ==> r->0@ == self.block_param_v()->0->Single_0->Name_0@,
    {
        match self.block_param {
            Some(BlockParam::Single(Parameter::Name(s))) => Some(s.as_str()),
            _ => None,
        }
    }

    /// The pair of block parameters (as in `|key, val|`), when both are names.
    pub fn block_param_pair(&self) -> (r: Option<(&str, &str)>)
        ensures
            r is Some <==> (self.block_param_v() is Some && self.block_param_v()->0 is Pair
                && self.block_param_v()->0->Pair_0 is Name && self.block_param_v()->0->Pair_1 is Name),
            r is Some ==> pair_first(r->0)@ == self.block_param_v()->0->Pair_0->Name_0@ && pair_second(r->0)@
                == self.block_param_v()->0->Pair_1->Name_0@,
    {
        match self.block_param {
            Some(BlockParam::Pair(Parameter::Name(s1), Parameter::Name(s2))) => Some(
                (s1.as_str(), s2.as_str()),
            ),
            _ => None,
        }
    }
}

fn hash_lookup<'b>(hash: &'b Vec<(String, ContextJson)>, key: &str) -> (r: Option<&'b ContextJson>)
    ensures
        r is Some <==> exists|i: int| 0 <= i < hash.len() && #[trigger] hash@[i].0@ == key@,
        r is Some ==> exists|i: int|
            0 <= i < hash.len() && #[trigger] hash@[i].0@ == key@ && *r->0 == hash@[i].1,
{
    let mut i: usize = 0;
    while i < hash.len()
        invariant
            i <= hash.len(),
            forall|j: int| 0 <= j < i ==> #[trigger] hash@[j].0@ != key@,
        decreases hash.len() - i,
    {
        if str_eq(hash[i].0.as_str(), key) {
            return Some(&hash[i].1);
        }
        i += 1;
    }
    None
}

pub open spec fn pair_first<'b>(p: (&'b str, &'b str)) -> &'b str {
    p.0
}

pub open spec fn pair_second<'b>(p: (&'b str, &'b str)) -> &'b str {
    p.1
}

/// What a directive sees of its call: the name, the parameters and named
/// parameters resolved once, and its template.
pub struct Directive<'a> {
    name: String,
    params: Vec<ContextJson>,
    hash: Vec<(String, ContextJson)>,
    template: &'a Option<Template>,
}

impl<'a> Directive<'a> {
    pub closed spec fn name_v(&self) -> Seq<char> {
        self.name@
    }

    pub closed spec fn params_v(&self) -> Seq<(Option<Seq<char>>, JsonV)> {
        self.params@.map_values(|c: ContextJson| resolved_view(c))
    }

    pub closed spec fn hash_v(&self) -> Seq<(Seq<char>, (Option<Seq<char>>, JsonV))> {
        self.hash@.map_values(|e: (String, ContextJson)| (e.0@, resolved_view(e.1)))
    }

    pub closed spec fn template_v(&self) -> Option<Template> {
        *self.template
    }

    /// Resolves the name, then every parameter and named parameter.
    fn from_template<R: Registry>(
        dt: &'a DirectiveTemplate,
        registry: &R,
        rc: &RenderContext,
        fuel: usize,
    ) -> (r: Result<Directive<'a>, RenderError>)
        ensures
            r is Ok ==> r->Ok_0.params_v().len() == dt.params.len(),
            r is Ok ==> r->Ok_0.template_v() == dt.template,
            r is Ok && dt.name is Subexpression && all_plain(dt.name->Subexpression_0.elements@)
                ==> r->Ok_0.name_v() == template_text(
                registry,
                *rc,
                false,
                dt.name->Subexpression_0.elements@,
            ),
            r is Ok ==> forall|i: int|
                0 <= i < dt.params.len() && (#[trigger] dt.params@[i]) is Subexpression
                    ==> computed_text(r->Ok_0.params_v()[i]),
            r is Ok ==> forall|i: int|
                0 <= i < dt.hash.len() && (#[trigger] dt.hash@[i]).1 is Subexpression
                    ==> computed_text(r->Ok_0.hash_v()[i].1),
            r is Ok && dt.name is Name ==> r->Ok_0.name_v() == dt.name->Name_0@,
            r is Ok && dt.name is Literal ==> r->Ok_0.name_v() == render_spec(dt.name->Literal_0@),
            (dt.name is Name || dt.name is Literal || (dt.name is Subexpression && all_plain(
                dt.name->Subexpression_0.elements@,
            ))) && (forall|i: int|
                0 <= i < dt.params.len() ==> resolvable(#[trigger] dt.params@[i])) && (forall|i: int|
                0 <= i < dt.hash.len() ==> resolvable(#[trigger] dt.hash@[i].1)) ==> r is Ok,
            r is Ok ==> forall|i: int|
                0 <= i < dt.params.len() && resolvable(#[trigger] dt.params@[i])
                    ==> r->Ok_0.params_v()[i] == resolved_value(registry, *rc, dt.params@[i]),
            r is Ok ==> r->Ok_0.hash_v().len() == dt.hash.len() && forall|i: int|
                0 <= i < dt.hash.len() ==> (#[trigger] r->Ok_0.hash_v()[i]).0 == dt.hash@[i].0@
                    && (resolvable(dt.hash@[i].1) ==> r->Ok_0.hash_v()[i].1 == resolved_value(registry, *rc,
                    dt.hash@[i].1,
                )),
        decreases fuel, dt, 0nat,
    {
        let name = dt.name.expand_name_at(registry, rc, fuel)?;
        let params = expand_all(&dt.params, registry, rc, fuel)?;
        let hash = expand_hash(&dt.hash, registry, rc, fuel)?;
        Ok(Directive { name, params, hash, template: &dt.template })
    }

    /// The directive's name.
    pub fn name(&self) -> (r: &str)
        ensures
            r@ == self.name_v(),
    {
        self.name.as_str()
    }

    /// All parameters, resolved.
    pub fn params(&self) -> (r: &Vec<ContextJson>)
        ensures
            r@.map_values(|c: ContextJson| resolved_view(c)) == self.params_v(),
    {
        &self.params
    }

    /// The parameter at `idx`, resolved.
    pub fn param(&self, idx: usize) -> (r: Option<&ContextJson>)
        ensures
            r is Some <==> idx < self.params_v().len(),
            r is Some ==> resolved_view(*r->0) == self.params_v()[idx as int],
    {
        if idx < self.params.len() {
            Some(&self.params[idx])
        } else {
            None
        }
    }

    /// All named parameters, resolved, in the order written.
    pub fn hash(&self) -> (r: &Vec<(String, ContextJson)>)
        ensures
            r@.map_values(|e: (String, ContextJson)| (e.0@, resolved_view(e.1))) == self.hash_v(),
    {
        &self.hash
    }

    /// The first named parameter called `key`, resolved.
    pub fn hash_get(&self, key: &str) -> (r: Option<&ContextJson>)
        ensures
            r is Some <==> exists|i: int| 0 <= i < self.hash_v().len() && #[trigger] self.hash_v()[i].0 == key@,
            r is Some ==> exists|i: int|
                0 <= i < self.hash_v().len() && #[trigger] self.hash_v()[i].0 == key@
                    && resolved_view(*r->0) == self.hash_v()[i].1,
    {
        let r = hash_lookup(&self.hash, key);
        proof {
            assert forall|i: int| 0 <= i < self.hash@.len() implies #[trigger] self.hash_v()[i] == (
                self.hash@[i].0@,
                resolved_view(self.hash@[i].1),
            ) by {}
            if r is Some {
                let i = choose|i: int|
                    0 <= i < self.hash@.len() && #[trigger] self.hash@[i].0@ == key@ && *r->0
                        == self.hash@[i].1;
                assert(self.hash_v()[i].0 == key@);
            } else {
                assert forall|i: int| 0 <= i < self.hash_v().len() implies #[trigger] self.hash_v()[i].0 != key@ by {
                    assert(self.hash@[i].0@ != key@);
                }
            }
        }
        r
    }

    /// The directive's template, if it is a block.
    pub fn template(&self) -> (r: Option<&Template>)
        ensures
            r is Some <==> self.template_v() is Some,
            r is Some ==> *r->0 == self.template_v()->0,
    {
        match self.template {
            Some(t) => Some(t),
            None => None,
        }
    }
}

// ---------------------------------------------------------------------------
// Parameters
fn expand_all<R: Registry>(ps: &Vec<Parameter>, registry: &R, rc: &RenderContext, fuel: usize) -> (r: Result<Vec<ContextJson>, RenderError>)
    ensures
        r is Ok ==> r->Ok_0.len() == ps.len(),
        r is Ok ==> forall|i: int|
            0 <= i < ps.len() && resolvable(#[trigger] ps@[i]) ==> resolved_view(r->Ok_0@[i])
                == resolved_value(registry, *rc, ps@[i]),
        r is Ok ==> forall|i: int|
            0 <= i < ps.len() && (#[trigger] ps@[i]) is Subexpression ==> resolved_view(
                r->Ok_0@[i],
            ).0 is None && resolved_view(r->Ok_0@[i]).1 is Str,
        (forall|i: int| 0 <= i < ps.len() ==> resolvable(#[trigger] ps@[i])) ==> r is Ok,
    decreases fuel, ps, 0nat,
{
    let mut out: Vec<ContextJson> = Vec::new();
    let mut i: usize = 0;
    while i < ps.len()
        invariant
            i <= ps.len(),
            out.len() == i,
            forall|j: int|
                0 <= j < i && resolvable(#[trigger] ps@[j]) ==> resolved_view(out@[j])
                    == resolved_value(registry, *rc, ps@[j]),
            forall|j: int|
                0 <= j < i && (#[trigger] ps@[j]) is Subexpression ==> resolved_view(out@[j]).0 is None
                    && resolved_view(out@[j]).1 is Str,
        decreases ps.len() - i,
    {
        proof {
            broadcast use axiom_vec_index_decreases;

            assert(decreases_to!(*ps => ps[i as int]));
        }
        let v = ps[i].expand_at(registry, rc, fuel)?;
        out.push(v);
        i += 1;
    }
    Ok(out)
}

fn expand_hash<R: Registry>(h: &Vec<(String, Parameter)>, registry: &R, rc: &RenderContext, fuel: usize) -> (r: Result<Vec<(String, ContextJson)>, RenderError>)
    ensures
        r is Ok ==> r->Ok_0.len() == h.len(),
        r is Ok ==> forall|i: int|
            0 <= i < h.len() ==> (#[trigger] r->Ok_0@[i]).0@ == h@[i].0@ && (resolvable(h@[i].1)
                ==> resolved_view(r->Ok_0@[i].1) == resolved_value(registry, *rc, h@[i].1)) && (
            h@[i].1 is Subexpression ==> resolved_view(r->Ok_0@[i].1).0 is None && resolved_view(
                r->Ok_0@[i].1,
            ).1 is Str),
        (forall|i: int| 0 <= i < h.len() ==> resolvable(#[trigger] h@[i].1)) ==> r is Ok,
    decreases fuel, h, 0nat,
{
    let mut out: Vec<(String, ContextJson)> = Vec::new();
    let mut i: usize = 0;
    while i < h.len()
        invariant
            i <= h.len(),
            out.len() == i,
            forall|j: int|
                0 <= j < i ==> (#[trigger] out@[j]).0@ == h@[j].0@ && (resolvable(h@[j].1)
                    ==> resolved_view(out@[j].1) == resolved_value(registry, *rc, h@[j].1)) && (
                h@[j].1 is Subexpression ==> resolved_view(out@[j].1).0 is None && resolved_view(
                    out@[j].1,
                ).1 is Str),
        decreases h.len() - i,
    {
        proof {
            broadcast use axiom_vec_index_decreases;

            assert(decreases_to!(*h => h[i as int]));
        }
        let v = h[i].1.expand_at(registry, rc, fuel)?;
        out.push((h[i].0.clone(), v));
        i += 1;
    }
    Ok(out)
}

/// Renders `t` in a child of `rc` with escaping off, and returns its output.
fn capture<R: Registry>(t: &Template, registry: &R, rc: &RenderContext, fuel: usize) -> (r: Result<String, RenderError>)
    ensures
        all_plain(t.elements@) ==> r is Ok && r->Ok_0@ == template_text(registry, *rc, false, t.elements@),
    decreases fuel, t, 1nat,
{
    let mut local_rc = rc.derive_capture();
    local_rc.disable_escape = true;
    let ghost child = local_rc;
    render_template_at(t, registry, &mut local_rc, fuel)?;
    proof {
        lemma_template_text_scope(registry, child, *rc, false, t.elements@);
        assert(local_rc.writer@ =~= local_rc.out_v());
        assert(Seq::<char>::empty() + template_text(registry, child, false, t.elements@) =~= template_text(registry, child, false, t.elements@));
    }
    Ok(local_rc.writer)
}

impl Parameter {
    /// The parameter as a name: a name as written, a literal's text, or the
    /// output of a subexpression.
    fn expand_name_at<R: Registry>(&self, registry: &R, rc: &RenderContext, fuel: usize) -> (r: Result<String, RenderError>)
        ensures
            self is Name ==> r is Ok && r->Ok_0@ == self->Name_0@,
            self is Literal ==> r is Ok && r->Ok_0@ == render_spec(self->Literal_0@),
            self is Subexpression && all_plain(self->Subexpression_0.elements@) ==> r is Ok
                && r->Ok_0@ == template_text(registry, *rc, false, self->Subexpression_0.elements@),
        decreases fuel, self, 0nat,
    {
        match self {
            Parameter::Name(name) => Ok(name.clone()),
            Parameter::Subexpression(t) => capture(t, registry, rc, fuel),
            Parameter::Literal(j) => Ok(j.render()),
        }
    }

    /// Resolves the parameter against the render state.
    fn expand_at<R: Registry>(&self, registry: &R, rc: &RenderContext, fuel: usize) -> (r: Result<ContextJson, RenderError>)
        ensures
            plain_param(*self) ==> r is Ok && resolved_view(r->Ok_0) == plain_value(*rc, *self),
            self is Subexpression && all_plain(self->Subexpression_0.elements@) ==> r is Ok
                && resolved_view(r->Ok_0) == (None::<Seq<char>>, JsonV::Str(
                template_text(registry, *rc, false, self->Subexpression_0.elements@),
            )),
            self is Subexpression && r is Ok ==> resolved_view(r->Ok_0).0 is None
                && resolved_view(r->Ok_0).1 is Str,
            resolvable(*self) ==> r is Ok && resolved_view(r->Ok_0) == resolved_value(
                registry,
                *rc,
                *self,
            ),
        decreases fuel, self, 0nat,
    {
        match self {
            Parameter::Name(name) => {
                match rc.get_local_var(name) {
                    Some(v) => Ok(ContextJson { path: None, value: v.deep_clone() }),
                    None => {
                        let value = match rc.evaluate_in_block_context(name.as_str()) {
                            Some(v) => v.deep_clone(),
                            None => rc.context().navigate(
                                rc.get_path().as_str(),
                                rc.get_local_path_root(),
                                name.as_str(),
                            ).deep_clone(),
                        };
                        Ok(ContextJson { path: Some(name.clone()), value })
                    },
                }
            },
            Parameter::Literal(j) => Ok(ContextJson { path: None, value: j.deep_clone() }),
            Parameter::Subexpression(t) => {
                let text = capture(t, registry, rc, fuel)?;
                Ok(ContextJson { path: None, value: Json::String(text) })
            },
        }
    }

    /// The parameter as a name: a name as written, a literal's text, or the
    /// output of a subexpression rendered with escaping off.
    pub fn expand_as_name<R: Registry>(&self, registry: &R, rc: &RenderContext) -> (r: Result<String, RenderError>)
        ensures
            self is Name ==> r is Ok && r->Ok_0@ == self->Name_0@,
            self is Literal ==> r is Ok && r->Ok_0@ == render_spec(self->Literal_0@),
            self is Subexpression && all_plain(self->Subexpression_0.elements@) ==> r is Ok
                && r->Ok_0@ == template_text(registry, *rc, false, self->Subexpression_0.elements@),
    {
        self.expand_name_at(registry, rc, rc.partial_depth)
    }

    /// Resolves the parameter: a local variable (without a path), else a
    /// block context, else the data at the current path; a literal as it is;
    /// a subexpression as the text it renders with escaping off.
    pub fn expand<R: Registry>(&self, registry: &R, rc: &RenderContext) -> (r: Result<ContextJson, RenderError>)
        ensures
            plain_param(*self) ==> r is Ok && resolved_view(r->Ok_0) == plain_value(*rc, *self),
            self is Subexpression && all_plain(self->Subexpression_0.elements@) ==> r is Ok
                && resolved_view(r->Ok_0) == (None::<Seq<char>>, JsonV::Str(
                template_text(registry, *rc, false, self->Subexpression_0.elements@),
            )),
            self is Subexpression && r is Ok ==> resolved_view(r->Ok_0).0 is None
                && resolved_view(r->Ok_0).1 is Str,
            resolvable(*self) ==> r is Ok && resolved_view(r->Ok_0) == resolved_value(
                registry,
                *rc,
                *self,
            ),
    {
        self.expand_at(registry, rc, rc.partial_depth)
    }
}

// ---------------------------------------------------------------------------
// Rendering
/// `prefix` followed by `name` in double quotes.
pub open spec fn quoted(prefix: Seq<char>, name: Seq<char>) -> Seq<char> {
    prefix + seq!['"'] + name + seq!['"']
}

fn quoted_error(prefix: &str, name: &str) -> (r: RenderError)
    ensures
        r.desc@ == quoted(prefix@, name@),
        r.line_no is None,
        r.column_no is None,
        r.template_name is None,
{
    let mut s = String::new();
    push_all(&mut s, prefix);
    s.push('"');
    push_all(&mut s, name);
    s.push('"');
    assert(s@ =~= quoted(prefix@, name@));
    RenderError { desc: s, template_name: None, line_no: None, column_no: None }
}


pub open spec fn helper_missing_chars() -> Seq<char> {
    seq!['H', 'e', 'l', 'p', 'e', 'r', ' ', 'n', 'o', 't', ' ', 'd', 'e', 'f', 'i', 'n', 'e', 'd', ':', ' ']
}

pub open spec fn directive_missing_chars() -> Seq<char> {
    seq![
        'D', 'i', 'r', 'e', 'c', 't', 'i', 'v', 'e', ' ', 'n', 'o', 't', ' ', 'd', 'e', 'f', 'i', 'n',
        'e', 'd', ':', ' ',
    ]
}

pub open spec fn partial_missing_chars() -> Seq<char> {
    seq!['P', 'a', 'r', 't', 'i', 'a', 'l', ' ', 'n', 'o', 't', ' ', 'f', 'o', 'u', 'n', 'd', ':', ' ']
}

/// The helper that stands in for a missing one: `blockHelperMissing` for a
/// block call, `helperMissing` otherwise.
pub fn fallback_helper_name(block: bool) -> (r: &'static str)
    ensures
        r@ == (if block {
            seq![
                'b', 'l', 'o', 'c', 'k', 'H', 'e', 'l', 'p', 'e', 'r', 'M', 'i', 's', 's', 'i', 'n', 'g',
            ]
        } else {
            seq!['h', 'e', 'l', 'p', 'e', 'r', 'M', 'i', 's', 's', 'i', 'n', 'g']
        }),
{
    proof {
        reveal_strlit("blockHelperMissing");
        reveal_strlit("helperMissing");
    }
    if block {
        "blockHelperMissing"
    } else {
        "helperMissing"
    }
}

/// The result of a helper call once the fallback helper has been tried: the
/// fallback's own result when there was one, else the error that the helper
/// `name` is not defined.
pub fn helper_outcome(found: Option<Result<(), RenderError>>, name: &str) -> (r: Result<(), RenderError>)
    ensures
        found is Some ==> r == found->0,
        found is None ==> r is Err && r->Err_0.desc@ == quoted(helper_missing_chars(), name@)
            && r->Err_0.line_no is None && r->Err_0.column_no is None
            && r->Err_0.template_name is None,
{
    match found {
        Some(res) => res,
        None => {
            proof {
                reveal_strlit("Helper not defined: ");
            }
            Err(quoted_error("Helper not defined: ", name))
        },
    }
}

/// The result of a directive call: the directive's own result when there is
/// one, else the error that the directive `name` is not defined.
pub fn decorator_outcome(found: Option<Result<(), RenderError>>, name: &str) -> (r: Result<(), RenderError>)
    ensures
        found is Some ==> r == found->0,
        found is None ==> r is Err && r->Err_0.desc@ == quoted(directive_missing_chars(), name@)
            && r->Err_0.line_no is None && r->Err_0.column_no is None
            && r->Err_0.template_name is None,
{
    match found {
        Some(res) => res,
        None => {
            proof {
                reveal_strlit("Directive not defined: ");
            }
            Err(quoted_error("Directive not defined: ", name))
        },
    }
}

/// The template a partial call renders: an inline partial shadows a
/// registered template; failing both, the block's own body; failing that,
/// none.
pub fn choose_partial(
    inline: Option<Template>,
    registered: Option<&Template>,
    body: &Option<Template>,
) -> (r: Option<Template>)
    ensures
        inline is Some ==> r is Some && r->0.view_t() == inline->0.view_t(),
        inline is None && registered is Some ==> r is Some && r->0.view_t()
            == registered->0.view_t(),
        inline is None && registered is None ==> (r is Some <==> body is Some),
        inline is None && registered is None && body is Some ==> r->0.view_t()
            == body->0.view_t(),
{
    match inline {
        Some(t) => Some(t),
        None => match registered {
            Some(t) => Some(t.duplicate()),
            None => match body {
                Some(b) => Some(b.duplicate()),
                None => None,
            },
        },
    }
}

/// The base path of a partial's render: the first parameter's path, if it
/// has one.
pub fn partial_base_path(params: &Vec<ContextJson>) -> (r: Option<String>)
    ensures
        r is Some <==> params.len() > 0 && params@[0].path_v() is Some,
        r is Some ==> r->0@ == params@[0].path_v()->0,
{
    if params.len() > 0 {
        match &params[0].path {
            Some(p) => Some(p.clone()),
            None => None,
        }
    } else {
        None
    }
}

/// The error a partial call gives when nothing resolves its name.
pub fn partial_not_found(name: &str) -> (r: RenderError)
    ensures
        r.desc@ == quoted(partial_missing_chars(), name@),
        r.line_no is None,
        r.column_no is None,
        r.template_name is None,
{
    proof {
        reveal_strlit("Partial not found: ");
    }
    quoted_error("Partial not found: ", name)
}

/// The position of element `i`, when the template holds one.
pub open spec fn mapping_entry(t: Template, i: int) -> Option<TemplateMapping> {
    match t.mapping {
        Some(m) => if 0 <= i < m.len() {
            Some(m@[i])
        } else {
            None
        },
        None => None,
    }
}

/// An error leaving `t` is that of one of its elements, enriched by `t`.
pub open spec fn error_from_element(t: Template, r: Result<(), RenderError>) -> bool {
    r is Err ==> exists|e0: RenderError, i: int|
        0 <= i < t.elements.len() && r->Err_0 == #[trigger] enriched(e0, t.name, mapping_entry(t, i))
}

/// Whether the template holds a position for each of its elements.
pub open spec fn fully_mapped(t: Template) -> bool {
    t.mapping is Some && t.mapping->0.len() >= t.elements.len()
}

/// Errors leaving a template carry its name when it has one, and a line when
/// every element has a position.
pub open spec fn error_located(t: Template, r: Result<(), RenderError>) -> bool {
    r is Err ==> (t.name is Some ==> r->Err_0.template_name is Some) && (fully_mapped(t)
        ==> r->Err_0.line_no is Some)
}

fn mapping_at(t: &Template, idx: usize) -> (r: Option<TemplateMapping>)
    ensures
        r == mapping_entry(*t, idx as int),
        fully_mapped(*t) && idx < t.elements.len() ==> r is Some,
{
    match &t.mapping {
        Some(m) => if idx < m.len() {
            Some(m[idx])
        } else {
            None
        },
        None => None,
    }
}

fn render_template_at<R: Registry>(t: &Template, registry: &R, rc: &mut RenderContext, fuel: usize) -> (r: Result<(), RenderError>)
    ensures
        error_located(*t, r),
        error_from_element(*t, r),
        all_plain(t.elements@) ==> r is Ok && final(rc).current_name() == t.name && final(rc).same_scope(old(rc)) && final(rc).out_v()
            == old(rc).out_v() + template_text(
            registry,
            *old(rc),
            !old(rc).escape_off(),
            t.elements@,
        ),
    decreases fuel, t, 0nat,
{
    rc.current_template = copy_name(&t.name);
    let ghost start = *rc;
    assert(start.same_scope(old(rc)));
    let mut idx: usize = 0;
    while idx < t.elements.len()
        invariant
            idx <= t.elements.len(),
            decreases_to!(*t => t.elements),
            all_plain(t.elements@) ==> rc.current_name() == t.name && rc.same_scope(old(rc)) && rc.out_v() == old(rc).out_v()
                + template_text(
                registry,
                *old(rc),
                !old(rc).escape_off(),
                t.elements@.subrange(0, idx as int),
            ),
        decreases t.elements.len() - idx,
    {
        proof {
            broadcast use axiom_vec_index_decreases;

            assert(decreases_to!(t.elements => t.elements[idx as int]));
        }
        let ghost before = *rc;
        match render_element_at(&t.elements[idx], registry, rc, fuel) {
            Ok(()) => {},
            Err(e) => {
                let ghost e0 = e;
                let at = mapping_at(t, idx);
                let res = Err(e.with_location(&t.name, at));
                assert(res->Err_0 == enriched(e0, t.name, mapping_entry(*t, idx as int)));
                return res;
            },
        }
        proof {
            if all_plain(t.elements@) {
                let pre = t.elements@.subrange(0, idx as int);
                let nxt = t.elements@.subrange(0, idx + 1);
                assert(nxt.drop_last() =~= pre);
                assert(nxt.last() == t.elements@[idx as int]);
                assert(plain_element(t.elements@[idx as int]));
                assert(element_text(registry, before, !before.escape_off(), t.elements@[idx as int])
                    == element_text(registry, *old(rc), !old(rc).escape_off(), t.elements@[idx as int]));
            }
        }
        idx = idx + 1;
    }
    assert(t.elements@.subrange(0, idx as int) =~= t.elements@);
    Ok(())
}

fn render_element_at<R: Registry>(e: &TemplateElement, registry: &R, rc: &mut RenderContext, fuel: usize) -> (r: Result<(), RenderError>)
    ensures
        plain_element(*e) ==> r is Ok && final(rc).same_scope(old(rc)) && final(rc).out_v()
            == old(rc).out_v() + element_text(registry, *old(rc), !old(rc).escape_off(), *e)
            && final(rc).current_name() == old(rc).current_name(),
        e is Expression && r is Ok ==> final(rc).same_scope(old(rc)) && exists|v: JsonV|
            final(rc).out_v() == old(rc).out_v() + #[trigger] escaped_text(
                registry,
                old(rc).escape_off(),
                v,
            ),
        e is HTMLExpression && r is Ok ==> final(rc).same_scope(old(rc)) && exists|v: JsonV|
            final(rc).out_v() == old(rc).out_v() + #[trigger] render_spec(v),
        (e is Expression || e is HTMLExpression) && r is Err ==> *final(rc) == *old(rc),
        e is Expression && resolvable(e->Expression_0) ==> r is Ok && final(rc).same_scope(old(rc))
            && final(rc).out_v() == old(rc).out_v() + escaped_text(
            registry,
            old(rc).escape_off(),
            resolved_value(registry, *old(rc), e->Expression_0).1,
        ),
        e is HTMLExpression && resolvable(e->HTMLExpression_0) ==> r is Ok && final(rc).same_scope(
            old(rc),
        ) && final(rc).out_v() == old(rc).out_v() + render_spec(
            resolved_value(registry, *old(rc), e->HTMLExpression_0).1,
        ),
    decreases fuel, e, 1nat,
{
    match e {
        TemplateElement::RawString(v) => {
            push_all(&mut rc.writer, v.as_str());
            Ok(())
        },
        TemplateElement::Expression(v) => {
            let context_json = v.expand_at(registry, rc, fuel)?;
            let rendered = context_json.value.render();
            if !rc.disable_escape {
                let output = registry.escape(rendered.as_str());
                push_all(&mut rc.writer, output.as_str());
            } else {
                push_all(&mut rc.writer, rendered.as_str());
            }
            assert(rc.out_v() == old(rc).out_v() + escaped_text(
                registry,
                old(rc).escape_off(),
                context_json.value@,
            ));
            Ok(())
        },
        TemplateElement::HTMLExpression(v) => {
            let context_json = v.expand_at(registry, rc, fuel)?;
            let rendered = context_json.value.render();
            push_all(&mut rc.writer, rendered.as_str());
            assert(rc.out_v() == old(rc).out_v() + render_spec(context_json.value@));
            Ok(())
        },
        TemplateElement::HelperExpression(ht) | TemplateElement::HelperBlock(ht) => {
            let helper = Helper::from_template(ht, registry, rc, fuel)?;
            match registry.call_helper(ht.name.as_str(), &helper, rc) {
                Some(res) => res,
                None => {
                    let found = registry.call_helper(fallback_helper_name(ht.block), &helper, rc);
                    helper_outcome(found, ht.name.as_str())
                },
            }
        },
        TemplateElement::DirectiveExpression(_) | TemplateElement::DirectiveBlock(_) => {
            eval_element_at(e, registry, rc, fuel)
        },
        TemplateElement::PartialExpression(dt) | TemplateElement::PartialBlock(dt) => {
            expand_partial(dt, registry, rc, fuel)
        },
        TemplateElement::Comment(_) => Ok(()),
    }
}

fn eval_element_at<R: Registry>(e: &TemplateElement, registry: &R, rc: &mut RenderContext, fuel: usize) -> (r: Result<(), RenderError>)
    ensures
        !(e is DirectiveExpression || e is DirectiveBlock) ==> r is Ok && *final(rc) == *old(rc),
    decreases fuel, e, 0nat,
{
    match e {
        TemplateElement::DirectiveExpression(dt) | TemplateElement::DirectiveBlock(dt) => {
            let di = Directive::from_template(dt, registry, rc, fuel)?;
            let found = registry.call_decorator(di.name.as_str(), &di, rc);
            decorator_outcome(found, di.name.as_str())
        },
        _ => Ok(()),
    }
}

/// No element of `els` is a directive.
pub open spec fn no_directives(els: Seq<TemplateElement>) -> bool {
    forall|i: int|
        0 <= i < els.len() ==> !(#[trigger] els[i] is DirectiveExpression || els[i] is DirectiveBlock)
}

fn eval_template_at<R: Registry>(t: &Template, registry: &R, rc: &mut RenderContext, fuel: usize) -> (r: Result<(), RenderError>)
    ensures
        error_located(*t, r),
        error_from_element(*t, r),
        no_directives(t.elements@) ==> r is Ok && *final(rc) == *old(rc),
    decreases fuel, t, 0nat,
{
    let mut idx: usize = 0;
    while idx < t.elements.len()
        invariant
            idx <= t.elements.len(),
            no_directives(t.elements@) ==> *rc == *old(rc),
            decreases_to!(*t => t.elements),
        decreases t.elements.len() - idx,
    {
        proof {
            broadcast use axiom_vec_index_decreases;

            assert(decreases_to!(t.elements => t.elements[idx as int]));
        }
        match eval_element_at(&t.elements[idx], registry, rc, fuel) {
            Ok(()) => {},
            Err(e) => {
                let ghost e0 = e;
                let at = mapping_at(t, idx);
                let res = Err(e.with_location(&t.name, at));
                assert(res->Err_0 == enriched(e0, t.name, mapping_entry(*t, idx as int)));
                return res;
            },
        }
        idx = idx + 1;
    }
    Ok(())
}

/// Expands `{{> name}}` or `{{#> name}}...{{/name}}`: an inline partial of
/// the render state shadows a registry template; failing both, a block's own
/// body stands in. The template renders in a child state whose base path is
/// the first parameter's path, if any. With named parameters, the child's
/// data becomes the value at that base path extended with them, read from
/// the top; the output is appended to this state's.
fn expand_partial<R: Registry>(dt: &DirectiveTemplate, registry: &R, rc: &mut RenderContext, fuel: usize) -> (r: Result<(), RenderError>)
    ensures
        fuel == 0 ==> r is Err,
    decreases fuel, dt, 1nat,
{
    if fuel == 0 {
        return Err(RenderError::new("Partials nest too deeply"));
    }
    let d = Directive::from_template(dt, registry, rc, fuel)?;
    match &dt.template {
        Some(body) => {
            eval_template_at(body, registry, rc, fuel)?;
        },
        None => {},
    }
    let inline = rc.get_partial(d.name.as_str());
    let t: Template = match choose_partial(inline, registry.get_template(d.name.as_str()), &dt.template) {
        Some(t) => t,
        None => {
            return Err(partial_not_found(d.name.as_str()));
        },
    };
    let mut local_rc = rc.derive();
    local_rc.partial_depth = fuel - 1;
    match partial_base_path(&d.params) {
        Some(p) => local_rc.set_path(p),
        None => {},
    }
    if d.hash.len() > 0 {
        let mut overlay = Object::new();
        let mut i: usize = 0;
        while i < d.hash.len()
            invariant
                i <= d.hash.len(),
            decreases d.hash.len() - i,
        {
            overlay.insert(d.hash[i].0.clone(), d.hash[i].1.value.deep_clone());
            i += 1;
        }
        let merged = Context::wraps(
            local_rc.context.navigate(local_rc.path.as_str(), &local_rc.local_path_root, "."),
        ).extend(&overlay);
        local_rc.context = merged;
        local_rc.path = String::from_str(".");
    }
    let res = render_template_at(&t, registry, &mut local_rc, fuel - 1);
    rc.rejoin(local_rc);
    res
}

impl Template {
    /// Renders the template, appending to the output of `rc`. Partials nest at
    /// most `MAX_PARTIAL_DEPTH` deep: one further level fails with
    /// "Partials nest too deeply". On a failure
    /// the error takes this template's name and the position of the failing
    /// element where it has none yet. A template of raw text, comments and
    /// expressions over names and literals always succeeds and writes each
    /// element's text in turn.
    pub fn render<R: Registry>(&self, registry: &R, rc: &mut RenderContext) -> (r: Result<(), RenderError>)
        ensures
            error_located(*self, r),
            error_from_element(*self, r),
            all_plain(self.elements@) ==> r is Ok && final(rc).current_name() == self.name && final(rc).same_scope(old(rc))
                && final(rc).out_v() == old(rc).out_v() + template_text(
                registry,
                *old(rc),
                !old(rc).escape_off(),
                self.elements@,
            ),
    {
        render_template_at(self, registry, rc, rc.partial_depth)
    }

    /// Renders the template in a child of `rc` and returns the output.
    pub fn renders<R: Registry>(&self, registry: &R, rc: &RenderContext) -> (r: Result<String, RenderError>)
        ensures
            all_plain(self.elements@) ==> r is Ok && r->Ok_0@ == template_text(
                registry,
                *rc,
                !rc.escape_off(),
                self.elements@,
            ),
    {
        let mut local_rc = rc.derive_capture();
        let ghost child = local_rc;
        render_template_at(self, registry, &mut local_rc, rc.partial_depth)?;
        proof {
            lemma_template_text_scope(registry, child, *rc, !rc.escape_off(), self.elements@);
            assert(Seq::<char>::empty() + template_text(registry, child, !rc.escape_off(), self.elements@) =~= template_text(registry, child, !rc.escape_off(), self.elements@));
        }
        Ok(local_rc.writer)
    }

    /// Runs the template's directives, and nothing else; errors are
    /// enriched as in `render`.
    pub fn eval<R: Registry>(&self, registry: &R, rc: &mut RenderContext) -> (r: Result<(), RenderError>)
        ensures
            error_located(*self, r),
            error_from_element(*self, r),
            no_directives(self.elements@) ==> r is Ok && *final(rc) == *old(rc),
    {
        eval_template_at(self, registry, rc, rc.partial_depth)
    }
}

impl TemplateElement {
    /// Renders one element, appending to the output of `rc`.
    pub fn render<R: Registry>(&self, registry: &R, rc: &mut RenderContext) -> (r: Result<(), RenderError>)
        ensures
            plain_element(*self) ==> r is Ok && final(rc).same_scope(old(rc)) && final(rc).out_v()
                == old(rc).out_v() + element_text(registry, *old(rc), !old(rc).escape_off(), *self),
            self is Expression && r is Ok ==> final(rc).same_scope(old(rc)) && exists|v: JsonV|
                final(rc).out_v() == old(rc).out_v() + #[trigger] escaped_text(
                    registry,
                    old(rc).escape_off(),
                    v,
                ),
            self is HTMLExpression && r is Ok ==> final(rc).same_scope(old(rc)) && exists|v: JsonV|
                final(rc).out_v() == old(rc).out_v() + #[trigger] render_spec(v),
            (self is Expression || self is HTMLExpression) && r is Err ==> *final(rc) == *old(rc),
            self is Expression && resolvable(self->Expression_0) ==> r is Ok && final(rc).same_scope(
                old(rc),
            ) && final(rc).out_v() == old(rc).out_v() + escaped_text(
                registry,
                old(rc).escape_off(),
                resolved_value(registry, *old(rc), self->Expression_0).1,
            ),
            self is HTMLExpression && resolvable(self->HTMLExpression_0) ==> r is Ok
                && final(rc).same_scope(old(rc)) && final(rc).out_v() == old(rc).out_v()
                + render_spec(resolved_value(registry, *old(rc), self->HTMLExpression_0).1),
    {
        render_element_at(self, registry, rc, rc.partial_depth)
    }

    /// Runs the element when it is a directive; any other element does nothing.
    pub fn eval<R: Registry>(&self, registry: &R, rc: &mut RenderContext) -> (r: Result<(), RenderError>)
        ensures
            !(self is DirectiveExpression || self is DirectiveBlock) ==> r is Ok && *final(rc) == *old(rc),
    {
        eval_element_at(self, registry, rc, rc.partial_depth)
    }
}

/// Something that renders into a render state.
pub trait Renderable {
    fn render<R: Registry>(&self, registry: &R, rc: &mut RenderContext) -> Result<(), RenderError>;
}

/// Something that runs directives against a render state.
pub trait Evaluable {
    fn eval<R: Registry>(&self, registry: &R, rc: &mut RenderContext) -> Result<(), RenderError>;
}

impl Renderable for Template {
    fn render<R: Registry>(&self, registry: &R, rc: &mut RenderContext) -> Result<(), RenderError> {
        Template::render(self, registry, rc)
    }
}

impl Renderable for TemplateElement {
    fn render<R: Registry>(&self, registry: &R, rc: &mut RenderContext) -> Result<(), RenderError> {
        TemplateElement::render(self, registry, rc)
    }
}

impl Evaluable for Template {
    fn eval<R: Registry>(&self, registry: &R, rc: &mut RenderContext) -> Result<(), RenderError> {
        Template::eval(self, registry, rc)
    }
}

impl Evaluable for TemplateElement {
    fn eval<R: Registry>(&self, registry: &R, rc: &mut RenderContext) -> Result<(), RenderError> {
        TemplateElement::eval(self, registry, rc)
    }
}
} // verus!
