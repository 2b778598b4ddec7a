use dexporter::orch::Orchestrator;

/// An instrumented fetcher stub: counts how many conversations are inside a
/// fetch at once and remembers the highest count seen.
struct ConcurrencyProbe {
    current: usize,
    peak: usize,
}

impl ConcurrencyProbe {
    fn enter(&mut self) {
        self.current += 1;
        if self.current > self.peak {
            self.peak = self.current;
        }
    }

    fn exit(&mut self) {
        self.current -= 1;
    }
}

#[test]
fn twelve_conversations_cap_five() {
    let conversations: Vec<u64> = (1..=12).collect();
    let mut orch = Orchestrator::new(conversations, 5);
    let mut probe = ConcurrencyProbe { current: 0, peak: 0 };
    let mut finished = 0;
    let mut running: Vec<u64> = vec![];
    while finished < 12 {
        // fill every free slot, as the concurrent executor would
        while let Some(id) = orch.try_start() {
            probe.enter();
            running.push(id);
            assert!(orch.active_count() <= 5);
        }
        assert!(orch.active_count() <= 5);
        // one running conversation finishes its sync
        let id = running.remove(0);
        probe.exit();
        assert!(orch.finish(id));
        finished += 1;
    }
    assert_eq!(probe.peak, 5);
    assert!(probe.peak <= 5);
    assert_eq!(orch.active_count(), 0);
    assert_eq!(orch.waiting_count(), 0);
}

#[test]
fn start_order_follows_waiting_order() {
    let mut orch = Orchestrator::new(vec![7, 8, 9], 2);
    assert_eq!(orch.try_start(), Some(7));
    assert_eq!(orch.try_start(), Some(8));
    assert_eq!(orch.try_start(), None);
    assert!(orch.finish(7));
    assert_eq!(orch.try_start(), Some(9));
    assert_eq!(orch.try_start(), None);
}

#[test]
fn finish_of_unknown_conversation_changes_nothing() {
    let mut orch = Orchestrator::new(vec![1, 2], 1);
    assert_eq!(orch.try_start(), Some(1));
    assert!(!orch.finish(99));
    assert_eq!(orch.active_count(), 1);
    assert_eq!(orch.waiting_count(), 1);
}

#[test]
fn failure_of_one_conversation_leaves_siblings_running() {
    let mut orch = Orchestrator::new(vec![1, 2, 3], 3);
    orch.try_start();
    orch.try_start();
    orch.try_start();
    // conversation 2 fails terminally; the others keep their slots
    assert!(orch.finish(2));
    assert_eq!(orch.active_count(), 2);
}
