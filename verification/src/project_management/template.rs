//! Project templates: their validation, and their rendering, which fills
//! `{{name}}` placeholders with the values of variables.

use vstd::prelude::*;
use crate::text::{copy_strings, decimal, find_from, find_text, replace_text, replaced, text_contains, usize_to_text};

verus! {

/// A template for new projects.
#[derive(Debug, Clone)]
pub struct ProjectTemplate {
    pub metadata: TemplateMetadata,
    pub spec: TemplateSpec,
}

/// What a template is.
#[derive(Debug, Clone)]
pub struct TemplateMetadata {
    pub name: String,
    pub description: String,
    pub version: String,
    pub tags: Vec<String>,
    pub category: String,
}

/// What a template holds. Variables are listed by name, in order.
#[derive(Debug, Clone)]
pub struct TemplateSpec {
    pub project: TemplateProject,
    pub resources: Vec<TemplateResource>,
    pub tasks: Vec<TemplateTask>,
    pub phases: Vec<TemplatePhase>,
    pub variables: Vec<(String, TemplateVariable)>,
}

/// The project of a template; its texts may hold placeholders.
#[derive(Debug, Clone)]
pub struct TemplateProject {
    pub name: String,
    pub description: String,
    pub start_date: String,
    pub end_date: String,
    pub timezone: String,
}

/// A resource of a template; its name and type may hold placeholders.
#[derive(Debug, Clone)]
pub struct TemplateResource {
    pub name: String,
    pub resource_type: String,
    pub skills: Vec<String>,
    pub capacity: u8,
}

/// A task of a template; its name and description may hold placeholders.
#[derive(Debug, Clone)]
pub struct TemplateTask {
    pub name: String,
    pub description: String,
    pub priority: String,
    pub category: String,
    pub estimated_hours: u32,
    pub dependencies: Vec<String>,
}

/// A phase of a template; its duration is in weeks.
#[derive(Debug)]
pub struct TemplatePhase {
    pub name: String,
    pub duration: u32,
    pub tasks: Vec<String>,
}

impl Clone for TemplatePhase {
    fn clone(&self) -> (r: Self)
        ensures
            r.name == self.name,
            r.duration == self.duration,
            r.tasks@ == self.tasks@,
    {
        TemplatePhase { name: self.name.clone(), duration: self.duration, tasks: copy_strings(&self.tasks) }
    }
}

/// A variable that a template expects.
#[derive(Debug, Clone)]
pub struct TemplateVariable {
    pub variable_type: String,
    pub required: bool,
    pub description: String,
    pub example: String,
    pub default: Option<String>,
}

/// A rendered template.
#[derive(Debug, Clone)]
pub struct RenderedTemplate {
    pub project: RenderedProject,
    pub resources: Vec<RenderedResource>,
    pub tasks: Vec<RenderedTask>,
    pub phases: Vec<TemplatePhase>,
}

/// A rendered project.
#[derive(Debug, Clone)]
pub struct RenderedProject {
    pub name: String,
    pub description: String,
    pub start_date: String,
    pub end_date: String,
    pub timezone: String,
}

/// A rendered resource.
#[derive(Debug, Clone)]
pub struct RenderedResource {
    pub name: String,
    pub resource_type: String,
    pub skills: Vec<String>,
    pub capacity: u8,
}

/// A rendered task.
#[derive(Debug, Clone)]
pub struct RenderedTask {
    pub name: String,
    pub description: String,
    pub priority: String,
    pub category: String,
    pub estimated_hours: u32,
    pub dependencies: Vec<String>,
}

// ============================================================================
// VALIDATION
// ============================================================================

/// The first resource, from position `i` on, with an empty name or type.
pub open spec fn resources_problem(rs: Seq<TemplateResource>, i: int) -> Option<Seq<char>>
    decreases rs.len() - i,
{
    if i < 0 || i >= rs.len() {
        None
    } else if rs[i].name@.len() == 0 {
        Some("Resource "@ + decimal(i as nat) + " name cannot be empty"@)
    } else if rs[i].resource_type@.len() == 0 {
        Some("Resource "@ + decimal(i as nat) + " type cannot be empty"@)
    } else {
        resources_problem(rs, i + 1)
    }
}

/// The first task, from position `i` on, with an empty name or no estimated hours.
pub open spec fn tasks_problem(ts: Seq<TemplateTask>, i: int) -> Option<Seq<char>>
    decreases ts.len() - i,
{
    if i < 0 || i >= ts.len() {
        None
    } else if ts[i].name@.len() == 0 {
        Some("Task "@ + decimal(i as nat) + " name cannot be empty"@)
    } else if ts[i].estimated_hours == 0 {
        Some("Task "@ + decimal(i as nat) + " estimated hours must be greater than 0"@)
    } else {
        tasks_problem(ts, i + 1)
    }
}

/// The first phase, from position `i` on, with an empty name or no duration.
pub open spec fn phases_problem(ps: Seq<TemplatePhase>, i: int) -> Option<Seq<char>>
    decreases ps.len() - i,
{
    if i < 0 || i >= ps.len() {
        None
    } else if ps[i].name@.len() == 0 {
        Some("Phase "@ + decimal(i as nat) + " name cannot be empty"@)
    } else if ps[i].duration == 0 {
        Some("Phase "@ + decimal(i as nat) + " duration must be greater than 0"@)
    } else {
        phases_problem(ps, i + 1)
    }
}

/// The first variable, from position `i` on, with an empty name or description.
pub open spec fn variables_problem(vs: Seq<(String, TemplateVariable)>, i: int) -> Option<Seq<char>>
    decreases vs.len() - i,
{
    if i < 0 || i >= vs.len() {
        None
    } else if vs[i].0@.len() == 0 {
        Some("Variable name cannot be empty"@)
    } else if vs[i].1.description@.len() == 0 {
        Some("Variable "@ + vs[i].0@ + " description cannot be empty"@)
    } else {
        variables_problem(vs, i + 1)
    }
}

/// The first problem of a template, checked in this order: its name, its version, the
/// name of its project, its resources, tasks, phases and variables.
pub open spec fn template_problem(t: ProjectTemplate) -> Option<Seq<char>> {
    if t.metadata.name@.len() == 0 {
        Some("Template name cannot be empty"@)
    } else if t.metadata.version@.len() == 0 {
        Some("Template version cannot be empty"@)
    } else if t.spec.project.name@.len() == 0 {
        Some("Project name template cannot be empty"@)
    } else if resources_problem(t.spec.resources@, 0) is Some {
        resources_problem(t.spec.resources@, 0)
    } else if tasks_problem(t.spec.tasks@, 0) is Some {
        tasks_problem(t.spec.tasks@, 0)
    } else if phases_problem(t.spec.phases@, 0) is Some {
        phases_problem(t.spec.phases@, 0)
    } else {
        variables_problem(t.spec.variables@, 0)
    }
}

// ============================================================================
// RENDERING
// ============================================================================

/// The variables as (name, value) texts.
pub open spec fn variable_views(vs: Seq<(String, String)>) -> Seq<(Seq<char>, Seq<char>)> {
    vs.map_values(|p: (String, String)| (p.0@, p.1@))
}

/// A text after the placeholders of the first `k` variables were filled, one variable
/// after the other: every `{{name}}` becomes the value.
pub open spec fn substituted(t: Seq<char>, vars: Seq<(Seq<char>, Seq<char>)>, k: int) -> Seq<char>
    decreases k,
{
    if k <= 0 {
        t
    } else {
        replaced(substituted(t, vars, k - 1), "{{"@ + vars[k - 1].0 + "}}"@, vars[k - 1].1)
    }
}

/// The rendering of one text: the filled text, or, where a `{{` and a `}}` remain, the
/// error that quotes the first `{{` up to the next `}}`. `None` where a `{{` remains and a
/// `}}` too, but none after that `{{`: there the rendering cannot quote and does not return.
pub open spec fn text_outcome(t: Seq<char>, vars: Seq<(Seq<char>, Seq<char>)>) -> Option<Result<Seq<char>, Seq<char>>> {
    let r = substituted(t, vars, vars.len() as int);
    if find_from(r, "{{"@, 0) is Some && find_from(r, "}}"@, 0) is Some {
        let st = find_from(r, "{{"@, 0).unwrap();
        match find_from(r, "}}"@, st) {
            Some(e) => Some(Err("Unresolved placeholders in template: "@ + r.subrange(st, e + 2))),
            None => None,
        }
    } else {
        Some(Ok(r))
    }
}

/// The rendering of the first `k` texts, one after the other, up to the first error.
pub open spec fn texts_outcome(texts: Seq<Seq<char>>, vars: Seq<(Seq<char>, Seq<char>)>, k: int) -> Option<Result<Seq<Seq<char>>, Seq<char>>>
    decreases k,
{
    if k <= 0 {
        Some(Ok(Seq::empty()))
    } else {
        match texts_outcome(texts, vars, k - 1) {
            Some(Ok(done)) => match text_outcome(texts[k - 1], vars) {
                Some(Ok(r)) => Some(Ok(done.push(r))),
                Some(Err(e)) => Some(Err(e)),
                None => None,
            },
            other => other,
        }
    }
}

/// The texts of the resources that rendering fills: name and type of each.
pub open spec fn resource_texts(rs: Seq<TemplateResource>) -> Seq<Seq<char>>
    decreases rs.len(),
{
    if rs.len() == 0 {
        Seq::empty()
    } else {
        resource_texts(rs.drop_last()) + seq![rs.last().name@, rs.last().resource_type@]
    }
}

/// The texts of the tasks that rendering fills: name and description of each.
pub open spec fn task_texts(ts: Seq<TemplateTask>) -> Seq<Seq<char>>
    decreases ts.len(),
{
    if ts.len() == 0 {
        Seq::empty()
    } else {
        task_texts(ts.drop_last()) + seq![ts.last().name@, ts.last().description@]
    }
}

/// Every text that rendering fills, in the order in which it fills them: the
/// project's name, description, start date, end date and time zone, then the
/// resources, then the tasks.
pub open spec fn template_texts(t: ProjectTemplate) -> Seq<Seq<char>> {
    let p = t.spec.project;
    seq![p.name@, p.description@, p.start_date@, p.end_date@, p.timezone@]
        + resource_texts(t.spec.resources@) + task_texts(t.spec.tasks@)
}

/// A rendered template holds the filled texts `done`, at their places, and copies
/// of everything else.
pub open spec fn rendered_from(t: ProjectTemplate, r: RenderedTemplate, done: Seq<Seq<char>>) -> bool {
    let nr = t.spec.resources@.len();
    let nt = t.spec.tasks@.len();
    &&& done.len() == 5 + 2 * nr + 2 * nt
    &&& r.project.name@ == done[0]
    &&& r.project.description@ == done[1]
    &&& r.project.start_date@ == done[2]
    &&& r.project.end_date@ == done[3]
    &&& r.project.timezone@ == done[4]
    &&& r.resources@.len() == nr
    &&& forall|i: int| 0 <= i < nr ==> {
        &&& (#[trigger] r.resources@[i]).name@ == done[5 + 2 * i]
        &&& r.resources@[i].resource_type@ == done[5 + 2 * i + 1]
        &&& r.resources@[i].skills@ == t.spec.resources@[i].skills@
        &&& r.resources@[i].capacity == t.spec.resources@[i].capacity
    }
    &&& r.tasks@.len() == nt
    &&& forall|j: int| 0 <= j < nt ==> {
        &&& (#[trigger] r.tasks@[j]).name@ == done[5 + 2 * nr + 2 * j]
        &&& r.tasks@[j].description@ == done[5 + 2 * nr + 2 * j + 1]
        &&& r.tasks@[j].priority == t.spec.tasks@[j].priority
        &&& r.tasks@[j].category == t.spec.tasks@[j].category
        &&& r.tasks@[j].estimated_hours == t.spec.tasks@[j].estimated_hours
        &&& r.tasks@[j].dependencies@ == t.spec.tasks@[j].dependencies@
    }
    &&& r.phases@.len() == t.spec.phases@.len()
    &&& forall|k: int| 0 <= k < r.phases@.len() ==> {
        &&& (#[trigger] r.phases@[k]).name == t.spec.phases@[k].name
        &&& r.phases@[k].duration == t.spec.phases@[k].duration
        &&& r.phases@[k].tasks@ == t.spec.phases@[k].tasks@
    }
}

proof fn lemma_resource_texts(rs: Seq<TemplateResource>)
    ensures
        resource_texts(rs).len() == 2 * rs.len(),
        forall|i: int| 0 <= i < rs.len() ==> resource_texts(rs)[2 * i] == (#[trigger] rs[i]).name@
            && resource_texts(rs)[2 * i + 1] == rs[i].resource_type@,
    decreases rs.len(),
{
    if rs.len() > 0 {
        lemma_resource_texts(rs.drop_last());
        assert forall|i: int| 0 <= i < rs.len() implies resource_texts(rs)[2 * i] == (#[trigger] rs[i]).name@
            && resource_texts(rs)[2 * i + 1] == rs[i].resource_type@ by {
            if i < rs.len() - 1 {
                assert(rs.drop_last()[i] == rs[i]);
            }
        }
    }
}

proof fn lemma_task_texts(ts: Seq<TemplateTask>)
    ensures
        task_texts(ts).len() == 2 * ts.len(),
        forall|i: int| 0 <= i < ts.len() ==> task_texts(ts)[2 * i] == (#[trigger] ts[i]).name@
            && task_texts(ts)[2 * i + 1] == ts[i].description@,
    decreases ts.len(),
{
    if ts.len() > 0 {
        lemma_task_texts(ts.drop_last());
        assert forall|i: int| 0 <= i < ts.len() implies task_texts(ts)[2 * i] == (#[trigger] ts[i]).name@
            && task_texts(ts)[2 * i + 1] == ts[i].description@ by {
            if i < ts.len() - 1 {
                assert(ts.drop_last()[i] == ts[i]);
            }
        }
    }
}

/// Once the rendering of a prefix fails or stops, so does the rendering of every longer prefix.
proof fn lemma_outcome_sticks(texts: Seq<Seq<char>>, vars: Seq<(Seq<char>, Seq<char>)>, k: int, n: int)
    requires
        0 <= k <= n,
        !(texts_outcome(texts, vars, k) matches Some(Ok(_))),
    ensures
        texts_outcome(texts, vars, n) == texts_outcome(texts, vars, k),
    decreases n - k,
{
    if n > k {
        lemma_outcome_sticks(texts, vars, k, n - 1);
    }
}

/// A successful rendering of `k` texts yields `k` texts.
proof fn lemma_outcome_len(texts: Seq<Seq<char>>, vars: Seq<(Seq<char>, Seq<char>)>, k: int)
    requires
        k >= 0,
        texts_outcome(texts, vars, k) matches Some(Ok(_)),
    ensures
        texts_outcome(texts, vars, k) matches Some(Ok(done)) && done.len() == k,
    decreases k,
{
    if k > 0 {
        lemma_outcome_len(texts, vars, k - 1);
    }
}

/// Where `find_from` finds the pattern, it occurs, at or after the start.
proof fn lemma_find_from(t: Seq<char>, p: Seq<char>, i: int)
    requires
        find_from(t, p, i) is Some,
    ensures
        i <= find_from(t, p, i).unwrap(),
        find_from(t, p, i).unwrap() + p.len() <= t.len(),
    decreases t.len() + 1 - i,
{
    if !(i < 0 || i > t.len() || i + p.len() > t.len()) && !(0 <= i && i + p.len() <= t.len() && t.subrange(i, i + p.len()) == p) {
        lemma_find_from(t, p, i + 1);
    }
}

/// The views of a list of strings.
spec fn texts_view(v: Seq<String>) -> Seq<Seq<char>> {
    v.map_values(|s: String| s@)
}

impl ProjectTemplate {
    /// A template with the given metadata and content.
    pub fn new(
        name: String,
        description: String,
        version: String,
        tags: Vec<String>,
        category: String,
        spec: TemplateSpec,
    ) -> (t: ProjectTemplate)
        ensures
            t.metadata.name == name,
            t.metadata.description == description,
            t.metadata.version == version,
            t.metadata.tags == tags,
            t.metadata.category == category,
            t.spec == spec,
    {
        ProjectTemplate { metadata: TemplateMetadata { name, description, version, tags, category }, spec }
    }

    /// Checks that the template is complete: `Err` with the first problem found.
    pub fn validate(&self) -> (r: Result<(), String>)
        ensures
            match template_problem(*self) {
                Some(m) => r matches Err(e) && e@ == m,
                None => r is Ok,
            },
    {
        if self.metadata.name.as_str().is_empty() {
            return Err(String::from_str("Template name cannot be empty"));
        }
        if self.metadata.version.as_str().is_empty() {
            return Err(String::from_str("Template version cannot be empty"));
        }
        if self.spec.project.name.as_str().is_empty() {
            return Err(String::from_str("Project name template cannot be empty"));
        }
        let resources = &self.spec.resources;
        let mut i: usize = 0;
        while i < resources.len()
            invariant
                0 <= i <= resources.len(),
                resources_problem(resources@, 0) == resources_problem(resources@, i as int),
                resources@ == self.spec.resources@,
                self.metadata.name@.len() > 0,
                self.metadata.version@.len() > 0,
                self.spec.project.name@.len() > 0,
            decreases resources.len() - i,
        {
            if resources[i].name.as_str().is_empty() {
                return Err(String::from_str("Resource ").concat(usize_to_text(i).as_str()).concat(" name cannot be empty"));
            }
            if resources[i].resource_type.as_str().is_empty() {
                return Err(String::from_str("Resource ").concat(usize_to_text(i).as_str()).concat(" type cannot be empty"));
            }
            i = i + 1;
        }
        let tasks = &self.spec.tasks;
        let mut i: usize = 0;
        while i < tasks.len()
            invariant
                0 <= i <= tasks.len(),
                tasks_problem(tasks@, 0) == tasks_problem(tasks@, i as int),
                tasks@ == self.spec.tasks@,
                resources_problem(self.spec.resources@, 0) is None,
                self.metadata.name@.len() > 0,
                self.metadata.version@.len() > 0,
                self.spec.project.name@.len() > 0,
            decreases tasks.len() - i,
        {
            if tasks[i].name.as_str().is_empty() {
                return Err(String::from_str("Task ").concat(usize_to_text(i).as_str()).concat(" name cannot be empty"));
            }
            if tasks[i].estimated_hours == 0 {
                return Err(
                    String::from_str("Task ").concat(usize_to_text(i).as_str()).concat(
                        " estimated hours must be greater than 0",
                    ),
                );
            }
            i = i + 1;
        }
        let phases = &self.spec.phases;
        let mut i: usize = 0;
        while i < phases.len()
            invariant
                0 <= i <= phases.len(),
                phases_problem(phases@, 0) == phases_problem(phases@, i as int),
                phases@ == self.spec.phases@,
                resources_problem(self.spec.resources@, 0) is None,
                tasks_problem(self.spec.tasks@, 0) is None,
                self.metadata.name@.len() > 0,
                self.metadata.version@.len() > 0,
                self.spec.project.name@.len() > 0,
            decreases phases.len() - i,
        {
            if phases[i].name.as_str().is_empty() {
                return Err(String::from_str("Phase ").concat(usize_to_text(i).as_str()).concat(" name cannot be empty"));
            }
            if phases[i].duration == 0 {
                return Err(
                    String::from_str("Phase ").concat(usize_to_text(i).as_str()).concat(
                        " duration must be greater than 0",
                    ),
                );
            }
            i = i + 1;
        }
        let variables = &self.spec.variables;
        let mut i: usize = 0;
        while i < variables.len()
            invariant
                0 <= i <= variables.len(),
                variables_problem(variables@, 0) == variables_problem(variables@, i as int),
                variables@ == self.spec.variables@,
                resources_problem(self.spec.resources@, 0) is None,
                tasks_problem(self.spec.tasks@, 0) is None,
                phases_problem(self.spec.phases@, 0) is None,
                self.metadata.name@.len() > 0,
                self.metadata.version@.len() > 0,
                self.spec.project.name@.len() > 0,
            decreases variables.len() - i,
        {
            if variables[i].0.as_str().is_empty() {
                return Err(String::from_str("Variable name cannot be empty"));
            }
            if variables[i].1.description.as_str().is_empty() {
                return Err(String::from_str("Variable ").concat(variables[i].0.as_str()).concat(" description cannot be empty"));
            }
            i = i + 1;
        }
        Ok(())
    }

    /// Fills the placeholders of one text, variable after variable; `Err` where a `{{`
    /// and a `}}` remain, quoting the first `{{` up to the next `}}`; `None` where no
    /// `}}` follows that `{{`, so that nothing can be quoted.
    fn render_string(&self, template: &str, variables: &Vec<(String, String)>) -> (r: Option<Result<String, String>>)
        ensures
            match text_outcome(template@, variable_views(variables@)) {
                Some(Ok(t)) => r matches Some(Ok(s)) && s@ == t,
                Some(Err(m)) => r matches Some(Err(s)) && s@ == m,
                None => r is None,
            },
    {
        proof {
            reveal_strlit("{{");
            reveal_strlit("}}");
        }
        let ghost vars = variable_views(variables@);
        let mut result = String::from_str(template);
        let mut k: usize = 0;
        while k < variables.len()
            invariant
                0 <= k <= variables.len(),
                vars == variable_views(variables@),
                result@ == substituted(template@, vars, k as int),
                "{{"@.len() == 2,
                "}}"@.len() == 2,
            decreases variables.len() - k,
        {
            let placeholder = String::from_str("{{").concat(variables[k].0.as_str()).concat("}}");
            assert(vars[k as int] == (variables@[k as int].0@, variables@[k as int].1@));
            result = replace_text(result.as_str(), placeholder.as_str(), variables[k].1.as_str());
            k = k + 1;
        }
        if text_contains(result.as_str(), "{{") && text_contains(result.as_str(), "}}") {
            match find_text(result.as_str(), "{{", 0) {
                Some(start) => {
                    proof {
                        lemma_find_from(result@, "{{"@, 0);
                    }
                    match find_text(result.as_str(), "}}", start) {
                        Some(p) => {
                            proof {
                                lemma_find_from(result@, "}}"@, start as int);
                            }
                            let len = result.as_str().unicode_len();
                            let unresolved = result.as_str().substring_char(start, p + 2);
                            Some(Err(String::from_str("Unresolved placeholders in template: ").concat(unresolved)))
                        },
                        None => None,
                    }
                },
                None => Some(Ok(result)),
            }
        } else {
            Some(Ok(result))
        }
    }

    /// Every text that rendering fills, in order.
    fn collect_texts(&self) -> (v: Vec<String>)
        ensures
            texts_view(v@) == template_texts(*self),
    {
        let p = &self.spec.project;
        let mut v: Vec<String> = Vec::new();
        v.push(p.name.clone());
        v.push(p.description.clone());
        v.push(p.start_date.clone());
        v.push(p.end_date.clone());
        v.push(p.timezone.clone());
        let ghost head = seq![p.name@, p.description@, p.start_date@, p.end_date@, p.timezone@];
        proof {
            assert(texts_view(v@) =~= head);
            assert(resource_texts(self.spec.resources@.take(0)) =~= Seq::<Seq<char>>::empty());
            assert(texts_view(v@) =~= head + resource_texts(self.spec.resources@.take(0)));
        }
        let rs = &self.spec.resources;
        let mut i: usize = 0;
        while i < rs.len()
            invariant
                0 <= i <= rs.len(),
                rs@ == self.spec.resources@,
                texts_view(v@) == head + resource_texts(rs@.take(i as int)),
            decreases rs.len() - i,
        {
            let ghost before = texts_view(v@);
            v.push(rs[i].name.clone());
            v.push(rs[i].resource_type.clone());
            proof {
                assert(rs@.take(i + 1).drop_last() =~= rs@.take(i as int));
                assert(texts_view(v@) =~= before + seq![rs@[i as int].name@, rs@[i as int].resource_type@]);
            }
            i = i + 1;
        }
        proof {
            assert(rs@.take(rs.len() as int) =~= rs@);
            assert(task_texts(self.spec.tasks@.take(0)) =~= Seq::<Seq<char>>::empty());
            assert(texts_view(v@) =~= head + resource_texts(rs@) + task_texts(self.spec.tasks@.take(0)));
        }
        let ts = &self.spec.tasks;
        let mut j: usize = 0;
        while j < ts.len()
            invariant
                0 <= j <= ts.len(),
                ts@ == self.spec.tasks@,
                rs@ == self.spec.resources@,
                texts_view(v@) == head + resource_texts(rs@) + task_texts(ts@.take(j as int)),
            decreases ts.len() - j,
        {
            let ghost before = texts_view(v@);
            v.push(ts[j].name.clone());
            v.push(ts[j].description.clone());
            proof {
                assert(ts@.take(j + 1).drop_last() =~= ts@.take(j as int));
                assert(texts_view(v@) =~= before + seq![ts@[j as int].name@, ts@[j as int].description@]);
            }
            j = j + 1;
        }
        proof {
            assert(ts@.take(ts.len() as int) =~= ts@);
        }
        v
    }

    /// Renders the template where the rendering is defined: `None` where, before any
    /// text is refused, a text keeps a `{{` with no `}}` after it while a `}}` remains
    /// elsewhere; otherwise what `render` gives.
    pub fn try_render(&self, variables: &Vec<(String, String)>) -> (r: Option<Result<RenderedTemplate, String>>)
        ensures
            match texts_outcome(template_texts(*self), variable_views(variables@), template_texts(*self).len() as int) {
                Some(Ok(done)) => r matches Some(Ok(rt)) && rendered_from(*self, rt, done),
                Some(Err(m)) => r matches Some(Err(e)) && e@ == m,
                None => r is None,
            },
    {
        let ghost vars = variable_views(variables@);
        let texts = self.collect_texts();
        let ghost tv = texts_view(texts@);
        let ghost total = tv.len() as int;
        let mut i: usize = 0;
        while i < texts.len()
            invariant
                0 <= i <= texts.len(),
                vars == variable_views(variables@),
                tv == texts_view(texts@),
                tv == template_texts(*self),
                total == tv.len(),
                texts_outcome(tv, vars, i as int) matches Some(Ok(_)),
            decreases texts.len() - i,
        {
            proof {
                assert(tv[i as int] == texts@[i as int]@);
            }
            match self.render_string(texts[i].as_str(), variables) {
                None => {
                    proof {
                        lemma_outcome_sticks(tv, vars, i + 1, total);
                    }
                    return None;
                },
                Some(Err(_)) => {
                    proof {
                        lemma_outcome_sticks(tv, vars, i + 1, total);
                    }
                    return Some(self.render(variables));
                },
                Some(Ok(_)) => {},
            }
            i = i + 1;
        }
        Some(self.render(variables))
    }

    /// Renders the template: fills the project's texts, then the names and types of
    /// the resources, then the names and descriptions of the tasks, and stops at the
    /// first text that keeps a placeholder. Everything else is copied.
    pub fn render(&self, variables: &Vec<(String, String)>) -> (r: Result<RenderedTemplate, String>)
        requires
            texts_outcome(template_texts(*self), variable_views(variables@), template_texts(*self).len() as int) is Some,
        ensures
            match texts_outcome(template_texts(*self), variable_views(variables@), template_texts(*self).len() as int) {
                Some(Ok(done)) => r matches Ok(rt) && rendered_from(*self, rt, done),
                Some(Err(m)) => r matches Err(e) && e@ == m,
                None => false,
            },
    {
        let ghost vars = variable_views(variables@);
        let texts = self.collect_texts();
        let ghost tv = texts_view(texts@);
        let ghost total = tv.len() as int;
        let mut done: Vec<String> = Vec::new();
        let mut i: usize = 0;
        proof {
            assert(texts_view(done@) =~= Seq::<Seq<char>>::empty());
        }
        while i < texts.len()
            invariant
                0 <= i <= texts.len(),
                vars == variable_views(variables@),
                tv == texts_view(texts@),
                tv == template_texts(*self),
                total == tv.len(),
                texts_outcome(tv, vars, total) is Some,
                texts_outcome(tv, vars, i as int) == Some(Ok::<Seq<Seq<char>>, Seq<char>>(texts_view(done@))),
            decreases texts.len() - i,
        {
            proof {
                assert(tv[i as int] == texts@[i as int]@);
                if text_outcome(tv[i as int], vars) is None {
                    lemma_outcome_sticks(tv, vars, i + 1, total);
                }
            }
            match self.render_string(texts[i].as_str(), variables) {
                None => {
                    proof {
                        assert(false);
                    }
                    return Err(String::new());
                },
                Some(Ok(s)) => {
                    let ghost before = done@;
                    done.push(s);
                    proof {
                        assert(texts_view(done@) =~= texts_view(before).push(s@));
                    }
                },
                Some(Err(e)) => {
                    proof {
                        lemma_outcome_sticks(tv, vars, i + 1, total);
                    }
                    return Err(e);
                },
            }
            i = i + 1;
        }
        let ghost dv = texts_view(done@);
        proof {
            lemma_resource_texts(self.spec.resources@);
            lemma_task_texts(self.spec.tasks@);
            lemma_outcome_len(tv, vars, total);
        }
        let project = RenderedProject {
            name: done[0].clone(),
            description: done[1].clone(),
            start_date: done[2].clone(),
            end_date: done[3].clone(),
            timezone: done[4].clone(),
        };
        let dl = done.len();
        let nr = self.spec.resources.len();
        let mut resources: Vec<RenderedResource> = Vec::new();
        let mut a: usize = 0;
        while a < nr
            invariant
                0 <= a <= nr,
                nr == self.spec.resources@.len(),
                dv == texts_view(done@),
                done@.len() == dv.len(),
                dl == done@.len(),
                dv.len() == 5 + 2 * nr + 2 * self.spec.tasks@.len(),
                resources@.len() == a,
                forall|x: int| 0 <= x < a ==> {
                    &&& (#[trigger] resources@[x]).name@ == dv[5 + 2 * x]
                    &&& resources@[x].resource_type@ == dv[5 + 2 * x + 1]
                    &&& resources@[x].skills@ == self.spec.resources@[x].skills@
                    &&& resources@[x].capacity == self.spec.resources@[x].capacity
                },
            decreases nr - a,
        {
            let res = &self.spec.resources[a];
            let item = RenderedResource {
                name: done[5 + 2 * a].clone(),
                resource_type: done[5 + 2 * a + 1].clone(),
                skills: copy_strings(&res.skills),
                capacity: res.capacity,
            };
            resources.push(item);
            a = a + 1;
        }
        let nt = self.spec.tasks.len();
        let mut tasks: Vec<RenderedTask> = Vec::new();
        let mut b: usize = 0;
        while b < nt
            invariant
                0 <= b <= nt,
                nr == self.spec.resources@.len(),
                nt == self.spec.tasks@.len(),
                dv == texts_view(done@),
                done@.len() == dv.len(),
                dl == done@.len(),
                dv.len() == 5 + 2 * nr + 2 * nt,
                tasks@.len() == b,
                forall|x: int| 0 <= x < b ==> {
                    &&& (#[trigger] tasks@[x]).name@ == dv[5 + 2 * nr + 2 * x]
                    &&& tasks@[x].description@ == dv[5 + 2 * nr + 2 * x + 1]
                    &&& tasks@[x].priority == self.spec.tasks@[x].priority
                    &&& tasks@[x].category == self.spec.tasks@[x].category
                    &&& tasks@[x].estimated_hours == self.spec.tasks@[x].estimated_hours
                    &&& tasks@[x].dependencies@ == self.spec.tasks@[x].dependencies@
                },
            decreases nt - b,
        {
            let task = &self.spec.tasks[b];
            let item = RenderedTask {
                name: done[5 + 2 * nr + 2 * b].clone(),
                description: done[5 + 2 * nr + 2 * b + 1].clone(),
                priority: task.priority.clone(),
                category: task.category.clone(),
                estimated_hours: task.estimated_hours,
                dependencies: copy_strings(&task.dependencies),
            };
            tasks.push(item);
            b = b + 1;
        }
        let np = self.spec.phases.len();
        let mut phases: Vec<TemplatePhase> = Vec::new();
        let mut c: usize = 0;
        while c < np
            invariant
                0 <= c <= np,
                np == self.spec.phases@.len(),
                phases@.len() == c,
                forall|x: int| 0 <= x < c ==> {
                    &&& (#[trigger] phases@[x]).name == self.spec.phases@[x].name
                    &&& phases@[x].duration == self.spec.phases@[x].duration
                    &&& phases@[x].tasks@ == self.spec.phases@[x].tasks@
                },
            decreases np - c,
        {
            phases.push(self.spec.phases[c].clone());
            c = c + 1;
        }
        Ok(RenderedTemplate { project, resources, tasks, phases })
    }
}

} // verus!
