use taintflow::solver::{DataFlowFact, IfdsSolver, PathEdge, TabulationProblem, Worklist};

#[derive(Debug, Clone, Copy, PartialEq, Eq, Hash)]
enum DummyFact {
    A,
    B,
    C,
}

fn gen_fact(gen: DummyFact, fact: &DataFlowFact<DummyFact>) -> Vec<DataFlowFact<DummyFact>> {
    let mut s = vec![fact.clone()];
    if *fact == DataFlowFact::Zero {
        s.push(DataFlowFact::Fact(gen));
    }
    s
}

fn call_gen(fact: &DataFlowFact<DummyFact>) -> Vec<DataFlowFact<DummyFact>> {
    match fact {
        DataFlowFact::Fact(DummyFact::A) => vec![DataFlowFact::Fact(DummyFact::B)],
        _ => Vec::new(),
    }
}

fn return_gen(call: &DataFlowFact<DummyFact>, exit: &DataFlowFact<DummyFact>) -> Vec<DataFlowFact<DummyFact>> {
    match (call, exit) {
        (DataFlowFact::Fact(DummyFact::A), DataFlowFact::Fact(DummyFact::B)) => vec![DataFlowFact::Fact(DummyFact::C)],
        _ => Vec::new(),
    }
}

// main: 1 entry, 2 call greet (callee entry 4, return site 3), 3 return site, 5 exit;
// greet: 4 entry and exit.
struct DummyProblem;

impl TabulationProblem for DummyProblem {
    type Node = u32;
    type Fact = DummyFact;

    fn initial_seeds(&self) -> Vec<(u32, Vec<DataFlowFact<DummyFact>>)> {
        vec![(1, vec![DataFlowFact::Zero])]
    }

    fn zero_value(&self) -> DataFlowFact<DummyFact> {
        DataFlowFact::Zero
    }

    fn successors(&self, node: &u32) -> Vec<u32> {
        match node {
            1 => vec![2],
            2 => vec![4, 3],
            3 => vec![5],
            _ => vec![],
        }
    }

    fn predecessors(&self, node: &u32) -> Vec<u32> {
        match node {
            2 => vec![1],
            3 => vec![2, 4],
            4 => vec![2],
            5 => vec![3],
            _ => vec![],
        }
    }

    fn is_call_site(&self, node: &u32) -> bool {
        *node == 2
    }

    fn is_exit_node(&self, node: &u32) -> bool {
        *node == 4 || *node == 5
    }

    fn normal_flow(&self, curr: &u32, _succ: &u32, fact: &DataFlowFact<DummyFact>) -> Vec<DataFlowFact<DummyFact>> {
        if *curr == 1 {
            gen_fact(DummyFact::A, fact)
        } else {
            vec![fact.clone()]
        }
    }

    fn call_flow(&self, _call: &u32, _entry: &u32, fact: &DataFlowFact<DummyFact>) -> Vec<DataFlowFact<DummyFact>> {
        call_gen(fact)
    }

    fn return_flow(&self, _exit: &u32, _ret: &u32, call_site_fact: &DataFlowFact<DummyFact>, exit_fact: &DataFlowFact<DummyFact>) -> Vec<DataFlowFact<DummyFact>> {
        return_gen(call_site_fact, exit_fact)
    }

    fn call_to_return_flow(&self, _call: &u32, _ret: &u32, fact: &DataFlowFact<DummyFact>) -> Vec<DataFlowFact<DummyFact>> {
        vec![fact.clone()]
    }
}

#[test]
fn test_dummy_propagation() {
    let mut solver = IfdsSolver::new(DummyProblem);
    solver.solve();

    assert!(solver.path_edges.contains(&PathEdge {
        source_fact: DataFlowFact::Zero,
        node: 2,
        target_fact: DataFlowFact::Fact(DummyFact::A),
    }));
    assert!(solver.path_edges.contains(&PathEdge {
        source_fact: DataFlowFact::Fact(DummyFact::B),
        node: 4,
        target_fact: DataFlowFact::Fact(DummyFact::B),
    }));
    assert!(solver.path_edges.contains(&PathEdge {
        source_fact: DataFlowFact::Zero,
        node: 3,
        target_fact: DataFlowFact::Fact(DummyFact::C),
    }));
    assert!(solver.path_edges.contains(&PathEdge {
        source_fact: DataFlowFact::Zero,
        node: 3,
        target_fact: DataFlowFact::Fact(DummyFact::A),
    }));
}

// Node 6 calls itself (callee entry 6, return site 7); 7 is the exit.
struct RecursiveProblem;

impl TabulationProblem for RecursiveProblem {
    type Node = u32;
    type Fact = DummyFact;

    fn initial_seeds(&self) -> Vec<(u32, Vec<DataFlowFact<DummyFact>>)> {
        vec![(6, vec![DataFlowFact::Fact(DummyFact::A)])]
    }

    fn zero_value(&self) -> DataFlowFact<DummyFact> {
        DataFlowFact::Zero
    }

    fn successors(&self, node: &u32) -> Vec<u32> {
        match node {
            6 => vec![6, 7],
            _ => vec![],
        }
    }

    fn predecessors(&self, node: &u32) -> Vec<u32> {
        match node {
            6 => vec![6],
            7 => vec![6],
            _ => vec![],
        }
    }

    fn is_call_site(&self, node: &u32) -> bool {
        *node == 6
    }

    fn is_exit_node(&self, node: &u32) -> bool {
        *node == 7
    }

    fn normal_flow(&self, _curr: &u32, _succ: &u32, fact: &DataFlowFact<DummyFact>) -> Vec<DataFlowFact<DummyFact>> {
        vec![fact.clone()]
    }

    fn call_flow(&self, _call: &u32, _entry: &u32, fact: &DataFlowFact<DummyFact>) -> Vec<DataFlowFact<DummyFact>> {
        call_gen(fact)
    }

    fn return_flow(&self, _exit: &u32, _ret: &u32, call_site_fact: &DataFlowFact<DummyFact>, exit_fact: &DataFlowFact<DummyFact>) -> Vec<DataFlowFact<DummyFact>> {
        return_gen(call_site_fact, exit_fact)
    }

    fn call_to_return_flow(&self, _call: &u32, _ret: &u32, fact: &DataFlowFact<DummyFact>) -> Vec<DataFlowFact<DummyFact>> {
        vec![fact.clone()]
    }
}

#[test]
fn test_recursive_termination() {
    let mut solver = IfdsSolver::new(RecursiveProblem);
    solver.solve();
    assert!(solver.path_edges.len() > 0);
}

#[test]
fn solve_records_each_edge_once() {
    let mut solver = IfdsSolver::new(DummyProblem);
    solver.solve();
    for (i, a) in solver.path_edges.iter().enumerate() {
        for b in solver.path_edges.iter().skip(i + 1) {
            assert_ne!(a, b);
        }
    }
    assert!(solver.worklist.is_empty());
}

#[test]
fn worklist_accepts_each_edge_once() {
    let mut wl: Worklist<PathEdge<u32, DummyFact>> = Worklist::new();
    let e = PathEdge { source_fact: DataFlowFact::Zero, node: 1, target_fact: DataFlowFact::Fact(DummyFact::A) };
    assert!(wl.push(e.clone()));
    assert!(!wl.push(e.clone()));
    assert_eq!(wl.len(), 1);
    assert_eq!(wl.pop(), Some(e.clone()));
    assert!(wl.is_empty());
    assert!(!wl.push(e));
    assert_eq!(wl.pop(), None);
}
