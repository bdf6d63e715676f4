//! Prompt templates with `{{name}}` placeholders.
use vstd::prelude::*;
use vstd::string::*;
use crate::text::{concat, owned, str_eq};

verus! {

/// Reads a placeholder name after an opening `{{`: the name (a lone `}` is
/// dropped from it), what follows the closing `}}`, and whether one was met.
pub open spec fn read_name(u: Seq<char>) -> (Seq<char>, Seq<char>, bool)
    decreases u.len(),
{
    if u.len() == 0 {
        (seq![], seq![], false)
    } else if u[0] == '}' {
        if u.len() > 1 && u[1] == '}' {
            (seq![], u.subrange(2, u.len() as int), true)
        } else {
            read_name(u.subrange(1, u.len() as int))
        }
    } else {
        let r = read_name(u.subrange(1, u.len() as int));
        (seq![u[0]] + r.0, r.1, r.2)
    }
}

/// The placeholder names of `t`, after those in `acc`: each closed,
/// non-empty name once, in order of first appearance.
pub open spec fn vars_from(t: Seq<char>, acc: Seq<Seq<char>>) -> Seq<Seq<char>>
    decreases t.len(),
{
    if t.len() < 2 {
        acc
    } else if t[0] == '{' && t[1] == '{' {
        let r = read_name(t.subrange(2, t.len() as int));
        if r.1.len() < t.len() {
            vars_from(r.1, if r.2 && r.0.len() > 0 && !acc.contains(r.0) { acc.push(r.0) } else { acc })
        } else {
            acc
        }
    } else {
        vars_from(t.subrange(1, t.len() as int), acc)
    }
}

proof fn lemma_read_name_shorter(u: Seq<char>)
    ensures
        read_name(u).1.len() <= u.len(),
        read_name(u).1.len() < u.len() || u.len() == 0,
    decreases u.len(),
{
    if u.len() > 0 {
        if u[0] == '}' {
            if !(u.len() > 1 && u[1] == '}') {
                lemma_read_name_shorter(u.subrange(1, u.len() as int));
            }
        } else {
            lemma_read_name_shorter(u.subrange(1, u.len() as int));
        }
    }
}

/// `s` with every occurrence of `pat`, left to right and not overlapping,
/// replaced by `rep`.
pub open spec fn replace_all(s: Seq<char>, pat: Seq<char>, rep: Seq<char>) -> Seq<char>
    decreases s.len(),
{
    if pat.len() == 0 || s.len() == 0 {
        s
    } else if pat.len() <= s.len() && s.subrange(0, pat.len() as int) == pat {
        rep + replace_all(s.subrange(pat.len() as int, s.len() as int), pat, rep)
    } else {
        seq![s[0]] + replace_all(s.subrange(1, s.len() as int), pat, rep)
    }
}

/// The placeholder for `key`.
pub open spec fn placeholder(key: Seq<char>) -> Seq<char> {
    "{{"@ + key + "}}"@
}

/// `t` with the placeholders of `values` filled in, pair by pair in order.
pub open spec fn fill(t: Seq<char>, values: Seq<(Seq<char>, Seq<char>)>) -> Seq<char>
    decreases values.len(),
{
    if values.len() == 0 {
        t
    } else {
        replace_all(fill(t, values.drop_last()), placeholder(values.last().0), values.last().1)
    }
}

/// Whether `values` has a pair with key `k`.
pub open spec fn has_value(values: Seq<(Seq<char>, Seq<char>)>, k: Seq<char>) -> bool {
    exists|i: int| 0 <= i < values.len() && (#[trigger] values[i]).0 == k
}

/// Index of the first variable in `vars` that `values` lacks, if any.
pub open spec fn first_missing(vars: Seq<Seq<char>>, values: Seq<(Seq<char>, Seq<char>)>) -> Option<int> {
    if exists|i: int| 0 <= i < vars.len() && !has_value(values, #[trigger] vars[i]) {
        Some(choose|i: int| 0 <= i < vars.len() && !has_value(values, #[trigger] vars[i]) && forall|j: int|
            0 <= j < i ==> has_value(values, #[trigger] vars[j]))
    } else {
        None
    }
}

pub open spec fn pairs_view(v: Seq<(String, String)>) -> Seq<(Seq<char>, Seq<char>)> {
    v.map_values(|p: (String, String)| (p.0@, p.1@))
}

fn matches_at(s: &str, i: usize, pat: &str) -> (r: bool)
    requires
        i <= s@.len(),
    ensures
        r == (pat@.len() <= s@.len() - i && s@.subrange(i as int, i + pat@.len()) == pat@),
{
    let n = s.unicode_len();
    let m = pat.unicode_len();
    if m > n - i {
        return false;
    }
    let mut k: usize = 0;
    while k < m
        invariant
            n == s@.len(),
            m == pat@.len(),
            i + m <= n,
            k <= m,
            forall|j: int| 0 <= j < k ==> s@[i + j] == pat@[j],
        decreases m - k,
    {
        if s.get_char(i + k) != pat.get_char(k) {
            assert(s@.subrange(i as int, i + m)[k as int] != pat@[k as int]);
            return false;
        }
        k = k + 1;
    }
    assert(s@.subrange(i as int, i + m) =~= pat@);
    true
}

proof fn lemma_replace_suffix(s: Seq<char>, i: int, pat: Seq<char>, rep: Seq<char>)
    requires
        0 <= i <= s.len(),
        pat.len() > 0,
    ensures
        i < s.len() ==> replace_all(s.subrange(i, s.len() as int), pat, rep) == if pat.len() <= s.len() - i && s.subrange(
            i,
            i + pat.len(),
        ) == pat {
            rep + replace_all(s.subrange(i + pat.len(), s.len() as int), pat, rep)
        } else {
            seq![s[i]] + replace_all(s.subrange(i + 1, s.len() as int), pat, rep)
        },
{
    if i < s.len() {
        let t = s.subrange(i, s.len() as int);
        if pat.len() <= t.len() {
            assert(t.subrange(0, pat.len() as int) =~= s.subrange(i, i + pat.len()));
            assert(t.subrange(pat.len() as int, t.len() as int) =~= s.subrange(i + pat.len(), s.len() as int));
        }
        assert(t.subrange(1, t.len() as int) =~= s.subrange(i + 1, s.len() as int));
    }
}

/// `s` with every occurrence of `pat` replaced by `rep`; `s` itself when
/// `pat` is empty.
pub fn replace_str(s: &str, pat: &str, rep: &str) -> (r: String)
    ensures
        r@ == replace_all(s@, pat@, rep@),
{
    let n = s.unicode_len();
    let m = pat.unicode_len();
    if m == 0 {
        return owned(s);
    }
    let mut out = String::new();
    let mut i: usize = 0;
    proof {
        assert(s@.subrange(0, n as int) =~= s@);
        assert(out@ + replace_all(s@, pat@, rep@) =~= replace_all(s@, pat@, rep@));
    }
    while i < n
        invariant
            n == s@.len(),
            m == pat@.len(),
            m > 0,
            i <= n,
            out@ + replace_all(s@.subrange(i as int, n as int), pat@, rep@) == replace_all(s@, pat@, rep@),
        decreases n - i,
    {
        proof {
            lemma_replace_suffix(s@, i as int, pat@, rep@);
        }
        if matches_at(s, i, pat) {
            let ghost o = out@;
            out.append(rep);
            proof {
                assert(o + (rep@ + replace_all(s@.subrange(i + m, n as int), pat@, rep@)) =~= out@ + replace_all(
                    s@.subrange(i + m, n as int),
                    pat@,
                    rep@,
                ));
            }
            i = i + m;
        } else {
            let ghost o = out@;
            out.append(s.substring_char(i, i + 1));
            proof {
                assert(s@.subrange(i as int, i + 1) =~= seq![s@[i as int]]);
                assert(o + (seq![s@[i as int]] + replace_all(s@.subrange(i + 1, n as int), pat@, rep@)) =~= out@
                    + replace_all(s@.subrange(i + 1, n as int), pat@, rep@));
            }
            i = i + 1;
        }
    }
    proof {
        assert(s@.subrange(i as int, n as int).len() == 0);
        assert(out@ + replace_all(s@.subrange(i as int, n as int), pat@, rep@) =~= out@);
    }
    out
}

/// A prompt template and the names of its placeholders.
#[derive(Clone, Debug)]
pub struct PromptTemplate {
    template: String,
    variables: Vec<String>,
}

impl PromptTemplate {
    pub closed spec fn template_view(&self) -> Seq<char> {
        self.template@
    }

    pub closed spec fn variables_view(&self) -> Seq<Seq<char>> {
        self.variables@.map_values(|s: String| s@)
    }

    /// A template over `template`, with its placeholder names read from it.
    pub fn new(template: String) -> (r: Self)
        ensures
            r.template_view() == template@,
            r.variables_view() == vars_from(template@, seq![]),
    {
        let variables = Self::extract_variables(template.as_str());
        PromptTemplate { template, variables }
    }

    /// The placeholder names, in order of first appearance.
    pub fn variables(&self) -> (r: &Vec<String>)
        ensures
            r@.map_values(|s: String| s@) == self.variables_view(),
    {
        &self.variables
    }

    /// Fills the placeholders from `values`. Fails, naming the first
    /// variable of the template that `values` lacks, when there is one.
    pub fn render(&self, values: &Vec<(String, String)>) -> (r: Result<String, String>)
        ensures
            match first_missing(self.variables_view(), pairs_view(values@)) {
                Some(i) => r matches Err(msg) && msg@ == "Missing required variable: "@ + self.variables_view()[i],
                None => r matches Ok(s) && s@ == fill(self.template_view(), pairs_view(values@)),
            },
    {
        let mut i: usize = 0;
        while i < self.variables.len()
            invariant
                i <= self.variables@.len(),
                forall|j: int| 0 <= j < i ==> has_value(pairs_view(values@), #[trigger] self.variables_view()[j]),
            decreases self.variables@.len() - i,
        {
            let var = self.variables[i].as_str();
            let mut found = false;
            let mut k: usize = 0;
            while k < values.len()
                invariant
                    k <= values@.len(),
                    found ==> has_value(pairs_view(values@), var@),
                    !found ==> forall|j: int| 0 <= j < k ==> (#[trigger] values@[j]).0@ != var@,
                decreases values@.len() - k,
            {
                if str_eq(values[k].0.as_str(), var) {
                    proof {
                        assert(pairs_view(values@)[k as int].0 == var@);
                    }
                    found = true;
                }
                k = k + 1;
            }
            if !found {
                proof {
                    assert(self.variables_view()[i as int] == var@);
                    assert(!has_value(pairs_view(values@), self.variables_view()[i as int])) by {
                        if has_value(pairs_view(values@), var@) {
                            let j = choose|j: int| 0 <= j < pairs_view(values@).len() && (#[trigger] pairs_view(values@)[j]).0 == var@;
                            assert(values@[j].0@ == var@);
                        }
                    }
                    let w = i as int;
                    let vv = self.variables_view();
                    let pv = pairs_view(values@);
                    assert(exists|x: int| 0 <= x < vv.len() && !has_value(pv, #[trigger] vv[x]));
                    let c = first_missing(vv, pv).unwrap();
                    if c < w {
                        assert(has_value(pv, vv[c]));
                    }
                    if c > w {
                        assert(has_value(pv, vv[w]));
                    }
                }
                return Err(concat("Missing required variable: ", var));
            }
            i = i + 1;
        }
        let mut result = self.template.clone();
        let mut k: usize = 0;
        while k < values.len()
            invariant
                k <= values@.len(),
                result@ == fill(self.template_view(), pairs_view(values@).subrange(0, k as int)),
            decreases values@.len() - k,
        {
            proof {
                let pv = pairs_view(values@);
                assert(pv.subrange(0, k as int + 1).drop_last() =~= pv.subrange(0, k as int));
            }
            let key = concat(concat("{{", values[k].0.as_str()).as_str(), "}}");
            result = replace_str(result.as_str(), key.as_str(), values[k].1.as_str());
            k = k + 1;
        }
        proof {
            assert(pairs_view(values@).subrange(0, k as int) =~= pairs_view(values@));
            assert(first_missing(self.variables_view(), pairs_view(values@)) is None);
        }
        Ok(result)
    }

    /// The placeholder names of `template`, each once, in order.
    fn extract_variables(template: &str) -> (r: Vec<String>)
        ensures
            r@.map_values(|s: String| s@) == vars_from(template@, seq![]),
    {
        let n = template.unicode_len();
        let mut variables: Vec<String> = Vec::new();
        let mut i: usize = 0;
        proof {
            assert(template@.subrange(0, n as int) =~= template@);
            assert(variables@.map_values(|s: String| s@) =~= Seq::<Seq<char>>::empty());
        }
        while n - i >= 2
            invariant
                n == template@.len(),
                i <= n,
                vars_from(template@.subrange(i as int, n as int), variables@.map_values(|s: String| s@)) == vars_from(
                    template@,
                    seq![],
                ),
            decreases n - i,
        {
            let ghost t = template@.subrange(i as int, n as int);
            let ghost acc = variables@.map_values(|s: String| s@);
            if template.get_char(i) == '{' && template.get_char(i + 1) == '{' {
                // read the name up to the closing braces
                let mut j: usize = i + 2;
                let mut name = String::new();
                let mut closed = false;
                proof {
                    assert(t.subrange(2, t.len() as int) =~= template@.subrange(j as int, n as int));
                }
                proof {
                    assert(name@ + read_name(template@.subrange(j as int, n as int)).0 =~= read_name(template@.subrange(j as int, n as int)).0);
                }
                while j < n
                    invariant_except_break
                        !closed,
                        ({
                            let whole = read_name(template@.subrange(i + 2, n as int));
                            let here = read_name(template@.subrange(j as int, n as int));
                            whole == (name@ + here.0, here.1, here.2)
                        }),
                    invariant
                        n == template@.len(),
                        i + 2 <= j <= n,
                    ensures
                        ({
                            let whole = read_name(template@.subrange(i + 2, n as int));
                            closed ==> whole == (name@, template@.subrange(j as int, n as int), true)
                        }),
                        !closed ==> ({
                            let whole = read_name(template@.subrange(i + 2, n as int));
                            whole == (name@, Seq::<char>::empty(), false) && j == n
                        }),
                        i + 2 <= j <= n,
                    decreases n - j,
                {
                    let ghost u = template@.subrange(j as int, n as int);
                    proof {
                        assert(u.subrange(1, u.len() as int) =~= template@.subrange(j + 1, n as int));
                    }
                    let c = template.get_char(j);
                    if c == '}' {
                        if j + 1 < n && template.get_char(j + 1) == '}' {
                            proof {
                                assert(u.subrange(2, u.len() as int) =~= template@.subrange(j + 2, n as int));
                                assert(name@ + Seq::<char>::empty() =~= name@);
                            }
                            j = j + 2;
                            closed = true;
                            break;
                        }
                        j = j + 1;
                    } else {
                        let ghost nm = name@;
                        name.append(template.substring_char(j, j + 1));
                        proof {
                            assert(template@.subrange(j as int, j + 1) =~= seq![c]);
                            assert(nm + (seq![c] + read_name(template@.subrange(j + 1, n as int)).0) =~= name@ + read_name(
                                template@.subrange(j + 1, n as int),
                            ).0);
                        }
                        j = j + 1;
                    }
                }
                proof {
                    if !closed {
                        assert(template@.subrange(j as int, n as int).len() == 0);
                        assert(name@ + seq![] =~= name@);
                    }
                    lemma_read_name_shorter(t.subrange(2, t.len() as int));
                }
                if closed && name.as_str().unicode_len() > 0 {
                    let mut seen = false;
                    let mut k: usize = 0;
                    while k < variables.len()
                        invariant
                            k <= variables@.len(),
                            seen ==> acc.contains(name@),
                            !seen ==> forall|x: int| 0 <= x < k ==> (#[trigger] variables@[x])@ != name@,
                            acc == variables@.map_values(|s: String| s@),
                        decreases variables@.len() - k,
                    {
                        if str_eq(variables[k].as_str(), name.as_str()) {
                            proof {
                                assert(acc[k as int] == name@);
                            }
                            seen = true;
                        }
                        k = k + 1;
                    }
                    if !seen {
                        proof {
                            assert(!acc.contains(name@)) by {
                                if acc.contains(name@) {
                                    let x = choose|x: int| 0 <= x < acc.len() && acc[x] == name@;
                                    assert(variables@[x]@ == name@);
                                }
                            }
                        }
                        variables.push(name);
                        proof {
                            assert(variables@.map_values(|s: String| s@) =~= acc.push(read_name(t.subrange(2, t.len() as int)).0));
                        }
                    }
                }
                if !closed {
                    proof {
                        assert(template@.subrange(j as int, n as int) =~= seq![]);
                    }
                }
                i = j;
            } else {
                proof {
                    assert(t.subrange(1, t.len() as int) =~= template@.subrange(i + 1, n as int));
                }
                i = i + 1;
            }
        }
        variables
    }
}

/// The built-in templates.
pub struct CommonPrompts;

impl CommonPrompts {
    /// A code-review prompt over `language`, `code` and `focus_areas`.
    pub fn code_review() -> (r: PromptTemplate)
        ensures
            r.template_view() == "You are reviewing code. Analyze the following code and provide feedback.\n\nCode:\n```{{language}}\n{{code}}\n```\n\nFocus on:\n{{focus_areas}}\n\nProvide your review in JSON format."@,
            r.variables_view() == vars_from("You are reviewing code. Analyze the following code and provide feedback.\n\nCode:\n```{{language}}\n{{code}}\n```\n\nFocus on:\n{{focus_areas}}\n\nProvide your review in JSON format."@, seq![]),
    {
        PromptTemplate::new(owned("You are reviewing code. Analyze the following code and provide feedback.\n\nCode:\n```{{language}}\n{{code}}\n```\n\nFocus on:\n{{focus_areas}}\n\nProvide your review in JSON format."))
    }

    /// A decision prompt over `decision_topic`, `context` and `constraints`.
    pub fn decision() -> (r: PromptTemplate)
        ensures
            r.template_view() == "You need to make a decision about: {{decision_topic}}\n\nContext:\n{{context}}\n\nConstraints:\n{{constraints}}\n\nConsider the following alternatives and explain your reasoning:\nRespond in JSON format with your decision and rationale."@,
            r.variables_view() == vars_from("You need to make a decision about: {{decision_topic}}\n\nContext:\n{{context}}\n\nConstraints:\n{{constraints}}\n\nConsider the following alternatives and explain your reasoning:\nRespond in JSON format with your decision and rationale."@, seq![]),
    {
        PromptTemplate::new(owned("You need to make a decision about: {{decision_topic}}\n\nContext:\n{{context}}\n\nConstraints:\n{{constraints}}\n\nConsider the following alternatives and explain your reasoning:\nRespond in JSON format with your decision and rationale."))
    }

    /// A task-decomposition prompt over `task` and `context`.
    pub fn decompose_task() -> (r: PromptTemplate)
        ensures
            r.template_view() == "Break down the following task into subtasks:\n\nTask: {{task}}\n\nContext: {{context}}\n\nProvide a list of subtasks in JSON format with dependencies."@,
            r.variables_view() == vars_from("Break down the following task into subtasks:\n\nTask: {{task}}\n\nContext: {{context}}\n\nProvide a list of subtasks in JSON format with dependencies."@, seq![]),
    {
        PromptTemplate::new(owned("Break down the following task into subtasks:\n\nTask: {{task}}\n\nContext: {{context}}\n\nProvide a list of subtasks in JSON format with dependencies."))
    }

    /// A risk-analysis prompt over `proposal` and `context`.
    pub fn risk_analysis() -> (r: PromptTemplate)
        ensures
            r.template_view() == "Analyze risks for the following proposal:\n\nProposal: {{proposal}}\n\nContext: {{context}}\n\nIdentify potential risks, their severity, and mitigation strategies.\nRespond in JSON format."@,
            r.variables_view() == vars_from("Analyze risks for the following proposal:\n\nProposal: {{proposal}}\n\nContext: {{context}}\n\nIdentify potential risks, their severity, and mitigation strategies.\nRespond in JSON format."@, seq![]),
    {
        PromptTemplate::new(owned("Analyze risks for the following proposal:\n\nProposal: {{proposal}}\n\nContext: {{context}}\n\nIdentify potential risks, their severity, and mitigation strategies.\nRespond in JSON format."))
    }
}

} // verus!
