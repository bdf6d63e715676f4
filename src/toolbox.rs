//! Toolbox registry: named sets of tool names, and the tools an agent gets
//! from the toolboxes it is assigned.
use vstd::prelude::*;
use crate::text::{owned, str_eq};

verus! {

/// A named set of tools.
#[derive(Clone, Debug)]
pub struct Toolbox {
    pub name: String,
    pub tools: Vec<String>,
}

/// The abstract value of a toolbox: its name and its tool names.
pub open spec fn toolbox_view(t: Toolbox) -> (Seq<char>, Seq<Seq<char>>) {
    (t.name@, t.tools@.map_values(|s: String| s@))
}

/// The toolbox registered last under `name` in `s`, if any.
pub open spec fn lookup(s: Seq<Toolbox>, name: Seq<char>) -> Option<Toolbox>
    decreases s.len(),
{
    if s.len() == 0 {
        None
    } else if s.last().name@ == name {
        Some(s.last())
    } else {
        lookup(s.drop_last(), name)
    }
}

/// The tools of the known toolboxes among `names`, in order.
pub open spec fn tools_for(s: Seq<Toolbox>, names: Seq<Seq<char>>) -> Seq<Seq<char>>
    decreases names.len(),
{
    if names.len() == 0 {
        seq![]
    } else {
        tools_for(s, names.drop_last()) + match lookup(s, names.last()) {
            Some(t) => toolbox_view(t).1,
            None => seq![],
        }
    }
}

/// The standard toolboxes and their tools.
pub open spec fn standard_toolboxes() -> Seq<(Seq<char>, Seq<Seq<char>>)> {
    seq![
        ("CodeGeneration"@, seq!["generate_function"@, "generate_class"@, "generate_module"@, "complete_code"@]),
        ("FileManipulation"@, seq!["read_file"@, "write_file"@, "move_file"@, "delete_file"@, "list_dir"@]),
        ("Shell"@, seq!["execute_command"@]),
        ("Refactoring"@, seq!["rename_symbol"@, "extract_function"@, "inline_function"@, "move_symbol"@]),
        ("StaticAnalysis"@, seq!["parse_ast"@, "detect_vulnerabilities"@, "find_code_smells"@]),
        ("DependencyScanning"@, seq!["list_dependencies"@, "check_vulnerabilities"@, "check_licenses"@]),
        ("MetricsAnalysis"@, seq!["calculate_complexity"@, "measure_maintainability"@, "score_technical_debt"@]),
        ("GraphQuery"@, seq!["traverse_dependencies"@, "analyze_impact"@, "find_patterns"@]),
        ("Testing"@, seq!["generate_unit_tests"@, "run_tests"@, "measure_coverage"@]),
        ("Fuzzing"@, seq!["generate_inputs"@, "detect_crashes"@, "find_edge_cases"@]),
        ("PerformanceProfiling"@, seq!["profile_cpu"@, "profile_memory"@, "run_benchmarks"@]),
        ("GitOperations"@, seq!["git_commit"@, "git_branch"@, "git_merge"@]),
        ("GitHistory"@, seq!["git_blame"@, "git_log"@, "find_author"@]),
        ("BuildSystem"@, seq!["compile"@, "link"@, "package"@]),
        ("Sandboxing"@, seq!["create_sandbox"@, "execute_in_sandbox"@, "destroy_sandbox"@]),
        ("ProcessManagement"@, seq!["spawn_process"@, "monitor_process"@, "kill_process"@]),
        ("DiagramGeneration"@, seq!["generate_architecture_diagram"@, "generate_sequence_diagram"@, "generate_call_graph"@]),
        ("VisualizationGeneration"@, seq!["create_dashboard"@, "generate_heatmap"@, "visualize_dependencies"@]),
    ]
}

fn make_toolbox(name: &str, tools: &[&str]) -> (r: Toolbox)
    ensures
        toolbox_view(r) == (name@, tools@.map_values(|s: &str| s@)),
{
    let mut out: Vec<String> = Vec::new();
    let mut i: usize = 0;
    while i < tools.len()
        invariant
            i <= tools@.len(),
            out@.len() == i,
            forall|k: int| 0 <= k < i ==> (#[trigger] out@[k])@ == tools@[k]@,
        decreases tools@.len() - i,
    {
        out.push(owned(tools[i]));
        i = i + 1;
    }
    let r = Toolbox { name: owned(name), tools: out };
    assert(toolbox_view(r).1 =~= tools@.map_values(|s: &str| s@));
    r
}

/// The registry; a toolbox registered again supersedes the earlier one.
pub struct ToolboxRegistry {
    toolboxes: Vec<Toolbox>,
}

impl ToolboxRegistry {
    /// The toolboxes in registration order.
    pub closed spec fn view(&self) -> Seq<Toolbox> {
        self.toolboxes@
    }

    /// A registry holding the standard toolboxes.
    pub fn new() -> (r: Self)
        ensures
            r.view().map_values(|t: Toolbox| toolbox_view(t)) == standard_toolboxes(),
    {
        let mut r = ToolboxRegistry { toolboxes: Vec::new() };
        r.initialize_standard_toolboxes();
        r
    }

    /// Registers the standard toolboxes after those already held.
    fn initialize_standard_toolboxes(&mut self)
        ensures
            final(self).view().map_values(|t: Toolbox| toolbox_view(t)) == old(self).view().map_values(
                |t: Toolbox| toolbox_view(t),
            ) + standard_toolboxes(),
    {
        let mut tbs: Vec<Toolbox> = Vec::new();
        tbs.push(make_toolbox("CodeGeneration", &["generate_function", "generate_class", "generate_module", "complete_code"]));
        tbs.push(make_toolbox("FileManipulation", &["read_file", "write_file", "move_file", "delete_file", "list_dir"]));
        tbs.push(make_toolbox("Shell", &["execute_command"]));
        tbs.push(make_toolbox("Refactoring", &["rename_symbol", "extract_function", "inline_function", "move_symbol"]));
        tbs.push(make_toolbox("StaticAnalysis", &["parse_ast", "detect_vulnerabilities", "find_code_smells"]));
        tbs.push(make_toolbox("DependencyScanning", &["list_dependencies", "check_vulnerabilities", "check_licenses"]));
        tbs.push(make_toolbox("MetricsAnalysis", &["calculate_complexity", "measure_maintainability", "score_technical_debt"]));
        tbs.push(make_toolbox("GraphQuery", &["traverse_dependencies", "analyze_impact", "find_patterns"]));
        tbs.push(make_toolbox("Testing", &["generate_unit_tests", "run_tests", "measure_coverage"]));
        tbs.push(make_toolbox("Fuzzing", &["generate_inputs", "detect_crashes", "find_edge_cases"]));
        tbs.push(make_toolbox("PerformanceProfiling", &["profile_cpu", "profile_memory", "run_benchmarks"]));
        tbs.push(make_toolbox("GitOperations", &["git_commit", "git_branch", "git_merge"]));
        tbs.push(make_toolbox("GitHistory", &["git_blame", "git_log", "find_author"]));
        tbs.push(make_toolbox("BuildSystem", &["compile", "link", "package"]));
        tbs.push(make_toolbox("Sandboxing", &["create_sandbox", "execute_in_sandbox", "destroy_sandbox"]));
        tbs.push(make_toolbox("ProcessManagement", &["spawn_process", "monitor_process", "kill_process"]));
        tbs.push(make_toolbox("DiagramGeneration", &["generate_architecture_diagram", "generate_sequence_diagram", "generate_call_graph"]));
        tbs.push(make_toolbox("VisualizationGeneration", &["create_dashboard", "generate_heatmap", "visualize_dependencies"]));
        proof {
            assert(tbs@.map_values(|t: Toolbox| toolbox_view(t)) =~~= standard_toolboxes());
        }
        let ghost before = self.toolboxes@;
        self.toolboxes.append(&mut tbs);
        proof {
            assert(self.toolboxes@.map_values(|t: Toolbox| toolbox_view(t)) =~= before.map_values(|t: Toolbox| toolbox_view(t))
                + standard_toolboxes());
        }
    }

    /// Registers `toolbox`; it supersedes any toolbox of the same name.
    pub fn register(&mut self, toolbox: Toolbox)
        ensures
            final(self).view() == old(self).view().push(toolbox),
            lookup(final(self).view(), toolbox.name@) == Some(toolbox),
            forall|n: Seq<char>| n != toolbox.name@ ==> #[trigger] lookup(final(self).view(), n) == lookup(old(self).view(), n),
    {
        let ghost before = self.toolboxes@;
        self.toolboxes.push(toolbox);
        proof {
            assert(self.toolboxes@.drop_last() =~= before);
        }
    }

    /// The toolbox named `name`, if registered.
    pub fn get(&self, name: &str) -> (r: Option<&Toolbox>)
        ensures
            match r {
                Some(t) => lookup(self.view(), name@) == Some(*t),
                None => lookup(self.view(), name@) is None,
            },
    {
        let mut i = self.toolboxes.len();
        proof {
            assert(self.toolboxes@.subrange(0, i as int) =~= self.toolboxes@);
        }
        while i > 0
            invariant
                i <= self.toolboxes@.len(),
                lookup(self.toolboxes@, name@) == lookup(self.toolboxes@.subrange(0, i as int), name@),
            decreases i,
        {
            proof {
                let s = self.toolboxes@.subrange(0, i as int);
                assert(s.drop_last() =~= self.toolboxes@.subrange(0, i - 1));
            }
            if str_eq(self.toolboxes[i - 1].name.as_str(), name) {
                return Some(&self.toolboxes[i - 1]);
            }
            i = i - 1;
        }
        None
    }

    /// The tools of the registered toolboxes among `toolbox_names`, in
    /// order; unknown names are passed over.
    pub fn get_tools_for_agent(&self, toolbox_names: &Vec<String>) -> (r: Vec<String>)
        ensures
            r@.map_values(|s: String| s@) == tools_for(self.view(), toolbox_names@.map_values(|s: String| s@)),
    {
        let mut out: Vec<String> = Vec::new();
        let mut i: usize = 0;
        while i < toolbox_names.len()
            invariant
                i <= toolbox_names@.len(),
                out@.map_values(|s: String| s@) == tools_for(
                    self.view(),
                    toolbox_names@.subrange(0, i as int).map_values(|s: String| s@),
                ),
            decreases toolbox_names@.len() - i,
        {
            proof {
                let names = toolbox_names@.subrange(0, i as int + 1).map_values(|s: String| s@);
                assert(names.drop_last() =~= toolbox_names@.subrange(0, i as int).map_values(|s: String| s@));
                assert(names.last() == toolbox_names@[i as int]@);
            }
            match self.get(toolbox_names[i].as_str()) {
                Some(t) => {
                    let ghost base = out@;
                    let mut j: usize = 0;
                    while j < t.tools.len()
                        invariant
                            j <= t.tools@.len(),
                            out@.len() == base.len() + j,
                            forall|k: int| 0 <= k < base.len() ==> out@[k] == base[k],
                            forall|k: int| 0 <= k < j ==> (#[trigger] out@[base.len() + k])@ == t.tools@[k]@,
                        decreases t.tools@.len() - j,
                    {
                        out.push(t.tools[j].clone());
                        j = j + 1;
                    }
                    proof {
                        let lhs = out@.map_values(|s: String| s@);
                        let rhs = base.map_values(|s: String| s@) + toolbox_view(*t).1;
                        assert(lhs.len() == rhs.len());
                        assert forall|k: int| 0 <= k < lhs.len() implies lhs[k] == rhs[k] by {
                            if k < base.len() {
                                assert(out@[k] == base[k]);
                            } else {
                                assert((out@[base.len() + (k - base.len())])@ == t.tools@[k - base.len()]@);
                            }
                        }
                        assert(lhs =~= rhs);
                    }
                },
                None => {},
            }
            i = i + 1;
        }
        proof {
            assert(toolbox_names@.subrange(0, i as int) =~= toolbox_names@);
        }
        out
    }
}

} // verus!
