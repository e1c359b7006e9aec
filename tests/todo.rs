use muffui::main_vm::{MainViewModel, SHOW_ACTIVE, SHOW_COMPLETED, SHOW_ALL};
use muffui::utils::uniqId;

fn vm_with(titles: &[&str]) -> MainViewModel {
    let mut vm = MainViewModel::new();
    for t in titles {
        vm.newTitle = String::from(*t);
        vm.createToDo();
    }
    vm
}

#[test]
fn create_assigns_fresh_ids_and_clears_title() {
    let vm = vm_with(&["a", "b"]);
    assert_eq!(vm.items, vec![(1, String::from("a"), false), (2, String::from("b"), false)]);
    assert_eq!(vm.newTitle, "");
    assert_eq!(vm.nextId, 3);
}

#[test]
fn filters_and_counts() {
    let mut vm = vm_with(&["a", "b", "c"]);
    vm.updateToDo((2, String::from("B"), true));
    assert_eq!(vm.getCompleted(), 1);
    vm.setShowAll(SHOW_ACTIVE);
    assert_eq!(vm.getItems(), vec![(1, String::from("a"), false), (3, String::from("c"), false)]);
    vm.setShowAll(SHOW_COMPLETED);
    assert_eq!(vm.getItems(), vec![(2, String::from("B"), true)]);
    vm.setShowAll(7);
    assert_eq!(vm.showAll, SHOW_ALL);
    assert_eq!(vm.getItems().len(), 3);
}

#[test]
fn remove_clear_and_complete() {
    let mut vm = vm_with(&["a", "b", "c", "d"]);
    vm.removeToDo(2);
    vm.removeToDo(42);
    assert_eq!(vm.items.iter().map(|i| i.0).collect::<Vec<_>>(), vec![1, 3, 4]);
    vm.updateToDo((3, String::from("c"), true));
    vm.clearCompleted();
    assert_eq!(vm.items.iter().map(|i| i.0).collect::<Vec<_>>(), vec![1, 4]);
    vm.completeAll();
    assert_eq!(vm.items, vec![(1, String::from("a"), true), (4, String::from("d"), true)]);
    assert_eq!(vm.getCompleted(), 2);
}

#[test]
fn uniq_id_counts_and_wraps() {
    let mut c: usize = 5;
    assert_eq!(uniqId(&mut c), 5);
    assert_eq!(c, 6);
    let mut m = usize::MAX;
    assert_eq!(uniqId(&mut m), usize::MAX);
    assert_eq!(m, 0);
}

#[test]
fn concat_appends() {
    assert_eq!(muffui::utils::concat(vec![1, 2], vec![3]), vec![1, 2, 3]);
    assert_eq!(muffui::utils::concat(Vec::<u8>::new(), vec![]), Vec::<u8>::new());
}
