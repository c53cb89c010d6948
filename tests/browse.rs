use sdw::browse::StatefulList;

#[test]
fn next_and_previous_wrap_around() {
    let mut list = StatefulList::with_items(vec!["a", "b", "c"]);
    assert_eq!(list.selected, None);
    list.next();
    assert_eq!(list.selected, Some(0));
    list.next();
    list.next();
    assert_eq!(list.selected, Some(2));
    list.next();
    assert_eq!(list.selected, Some(0));
    list.previous();
    assert_eq!(list.selected, Some(2));
    list.previous();
    assert_eq!(list.selected, Some(1));
    list.unselect();
    assert_eq!(list.selected, None);
    list.previous();
    assert_eq!(list.selected, Some(0));
    assert_eq!(list.items.len(), 3);
}
