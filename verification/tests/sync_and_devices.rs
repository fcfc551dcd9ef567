use positron::dtb::{Dtb, DtbNode, DtbProp};
use positron::mutex::{Mutex, RawMutex};
use positron::spinlock::{RawSpinlock, Spinlock};
use positron::waitlist::Waitlist;

#[test]
fn spinlock_exclusive_and_shared() {
    let mut lock = Spinlock::new(5u32);
    assert!(!lock.is_locked());
    let mut g = lock.lock();
    assert!(lock.is_locked());
    assert_eq!(g.read(&lock), 5);
    g.write(&mut lock, 9);
    let s = g.demote(&mut lock);
    assert!(!lock.is_locked());
    let s2 = s.share(&mut lock);
    assert_eq!(s2.read(&lock), 9);
    s.release(&mut lock);
    s2.release(&mut lock);
    let g = lock.lock();
    assert_eq!(g.read(&lock), 9);
    g.release(&mut lock);
    assert!(!lock.is_locked());
}

#[test]
fn raw_locks() {
    let mut raw = RawSpinlock::new();
    let g = raw.lock();
    assert!(raw.is_locked());
    g.release(&mut raw);
    assert!(!raw.is_locked());
    let mut m = RawMutex::new();
    let g = m.lock().unwrap();
    assert!(m.is_locked());
    g.release(&mut m);
    let s = m.lock_shared().unwrap();
    assert!(!m.is_locked());
    s.release(&mut m);
}

#[test]
fn mutex_holds_value() {
    let mut m = Mutex::new(vec![1u8, 2]);
    let mut g = m.lock();
    g.write(&mut m, vec![3]);
    g.release(&mut m);
    let s = m.lock_shared();
    assert_eq!(s.read(&m), vec![3]);
    s.release(&mut m);
    assert!(!m.is_locked());
}

#[test]
fn waitlist_block_returns() {
    let w = Waitlist::new();
    assert_eq!(w.block(1000, || true), Ok(()));
    w.unintr_block(0, || false);
    w.notify();
    w.notify_all();
}

#[test]
fn dtb_prop_cells() {
    let p = DtbProp {
        name: "reg".to_string(),
        blob: vec![0, 0, 0, 1, 0x80, 0, 0, 0, 0, 0x10, 0, 0],
    };
    assert_eq!(p.read_cell(0), Some(1));
    assert_eq!(p.read_cell(1), Some(0x8000_0000));
    assert_eq!(p.read_uint_cells(0..2), Some(0x1_8000_0000));
    assert_eq!(p.read_uint_cells(1..3), Some(0x8000_0000_0010_0000));
    assert_eq!(p.read_uint_cells(2..2), Some(0));
    assert_eq!(p.read_uint(), Some(0x1_8000_0000_0010_0000));
    let root = DtbNode { name: String::new(), phandle: None, nodes: vec![], props: vec![p] };
    let dtb = Dtb::new(root);
    assert_eq!(dtb.root().props[0].name(), "reg");
    assert_eq!(dtb.root().name(), "");
}

fn node(name: &str, phandle: Option<u32>, nodes: Vec<DtbNode>) -> DtbNode {
    DtbNode { name: name.to_string(), phandle, nodes, props: vec![] }
}

#[test]
fn dtb_by_phandle() {
    let intc = node("interrupt-controller", Some(3), vec![]);
    let cpu0 = node("cpu@0", Some(1), vec![intc]);
    let cpus = node("cpus", None, vec![cpu0]);
    let plic = node("plic@c000000", Some(9), vec![]);
    let soc = node("soc", None, vec![plic]);
    let dtb = Dtb::new(node("", None, vec![cpus, soc]));
    assert_eq!(dtb.by_phandle(3).map(|n| n.name()), Some("interrupt-controller"));
    assert_eq!(dtb.by_phandle(1).map(|n| n.name()), Some("cpu@0"));
    assert_eq!(dtb.by_phandle(9).map(|n| n.name()), Some("plic@c000000"));
    assert!(dtb.by_phandle(2).is_none());
    assert!(dtb.by_phandle(0).is_none());
}

#[test]
fn dtb_paths_and_parents() {
    let intc = node("interrupt-controller", Some(3), vec![]);
    let mut cpu0 = node("cpu@0", Some(1), vec![intc]);
    cpu0.props.push(DtbProp { name: "reg".to_string(), blob: vec![0, 0, 0, 0] });
    let cpus = node("cpus", None, vec![cpu0]);
    let dtb = Dtb::new(node("", None, vec![cpus]));
    let text = |t: Option<Vec<char>>| t.map(|c| c.into_iter().collect::<String>());
    assert_eq!(text(dtb.node_text(&vec![])), Some(String::new()));
    assert_eq!(text(dtb.node_text(&vec![0])), Some("cpus".to_string()));
    assert_eq!(text(dtb.node_text(&vec![0, 0, 0])), Some("cpus/cpu@0/interrupt-controller".to_string()));
    assert_eq!(text(dtb.node_text(&vec![0, 1])), None);
    assert_eq!(text(dtb.prop_text(&vec![0, 0], 0)), Some("cpus/cpu@0 prop reg".to_string()));
    assert_eq!(text(dtb.prop_text(&vec![0, 0], 1)), None);
    assert_eq!(dtb.node_at(&vec![0, 0]).map(|n| n.name()), Some("cpu@0"));
    assert_eq!(dtb.parent(&vec![0, 0, 0]).map(|n| n.name()), Some("cpu@0"));
    assert_eq!(dtb.parent(&vec![0]).map(|n| n.name()), Some(""));
    assert!(dtb.parent(&vec![]).is_none());
    assert!(dtb.parent(&vec![3]).is_none());
}
