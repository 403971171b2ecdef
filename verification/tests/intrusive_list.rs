use shmseg::intrusive::adapter::Adapter;
use shmseg::intrusive::size::NotIncludeSize;
use shmseg::intrusive::size::Size;
use shmseg::intrusive::slist::Link;
use shmseg::intrusive::slist::SinglyLinkedList;

struct My {
    data: i32,
    #[allow(dead_code)]
    link: Link,
}

struct Adapt;

impl Adapter for Adapt {
    type Value = My;
    type Size = usize;
}

#[test]
fn test_hoge() {
    let mut slist = SinglyLinkedList::new(Adapt);
    assert_eq!(slist.is_empty(), true);

    let d1 = My { data: 100, link: Link::unlinked() };
    slist.push_front(d1);
    assert_eq!(slist.iter().nth(0).unwrap().data, 100);

    let d2 = My { data: 200, link: Link::unlinked() };
    slist.push_front(d2);
    assert_eq!(slist.iter().nth(0).unwrap().data, 200);
    assert_eq!(slist.iter().nth(1).unwrap().data, 100);

    assert_eq!(slist.pop_front().unwrap().data, 200);
    assert_eq!(slist.pop_front().unwrap().data, 100);
}

#[test]
fn list_size_follows_pushes() {
    let mut slist: SinglyLinkedList<Adapt> = SinglyLinkedList::new(Adapt);
    assert_eq!(slist.size(), 0);
    slist.push_front(My { data: 1, link: Link::unlinked() });
    slist.push_front(My { data: 2, link: Link::unlinked() });
    assert_eq!(slist.size(), 2);
    assert!(!slist.is_empty());
    let _ = slist.pop_front();
    assert_eq!(slist.size(), 1);
}

#[test]
fn iter_walks_front_to_back() {
    let mut slist: SinglyLinkedList<Adapt> = SinglyLinkedList::new(Adapt);
    slist.push_front(My { data: 1, link: Link::unlinked() });
    slist.push_front(My { data: 2, link: Link::unlinked() });
    slist.push_front(My { data: 3, link: Link::unlinked() });
    let mut it = slist.iter();
    assert_eq!(it.next().unwrap().data, 3);
    assert_eq!(it.next().unwrap().data, 2);
    assert_eq!(it.next().unwrap().data, 1);
    assert!(it.next().is_none());
}

#[test]
fn iter_mut_yields_positions() {
    let mut slist: SinglyLinkedList<Adapt> = SinglyLinkedList::new(Adapt);
    slist.push_front(My { data: 1, link: Link::unlinked() });
    slist.push_front(My { data: 2, link: Link::unlinked() });
    let mut cursor = slist.iter_mut();
    assert_eq!(cursor.next(2), Some(0));
    assert_eq!(cursor.next(2), Some(1));
    assert_eq!(cursor.next(2), None);
}

#[test]
fn stored_size_counts() {
    let mut s: usize = Size::new();
    s.add(3);
    s.inc();
    s.sub(1);
    s.dec();
    assert_eq!(s.count(2), 2);
}

#[test]
fn unstored_size_defers_to_actual() {
    let mut s = NotIncludeSize;
    s.add(3);
    s.inc();
    assert_eq!(s.count(7), 7);
}
