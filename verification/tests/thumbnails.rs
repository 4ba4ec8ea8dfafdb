use papers::ordering::stable_positions;
use papers::page_set::insert_page;
use papers::sidebar_thumbnails::{
    need_blank_head, Binding, HeadChange, PpsSidebarThumbnails, ThumbnailRow, Unbinding,
};
use papers::thumbnail_cache::{ThumbnailCache, MAX_LRU_SIZE};

fn loaded(n_pages: i32) -> PpsSidebarThumbnails {
    let mut t = PpsSidebarThumbnails::new();
    t.load_order(n_pages, None);
    t
}

#[test]
fn the_own_order_is_the_default() {
    let mut t = loaded(3);
    assert_eq!(t.current_order(), vec![0, 1, 2]);
    t.load_order(3, Some("2,0,1"));
    assert_eq!(t.current_order(), vec![2, 0, 1]);
    for stored in ["2,0", "2,0,0", "2,0,3", "-1,0,1", "", "a,b,c", "2,0,1,1", "0 ,1,2"] {
        t.load_order(3, Some(stored));
        assert_eq!(t.current_order(), vec![0, 1, 2], "{}", stored);
    }
    t.load_order(3, Some("x,2,,+1,0"));
    assert_eq!(t.current_order(), vec![2, 1, 0]);
    t.load_order(0, Some(""));
    assert_eq!(t.current_order(), Vec::<i32>::new());
    t.load_order(-4, None);
    assert_eq!(t.current_order(), Vec::<i32>::new());
}

#[test]
fn a_thumbnail_moves_to_the_place_of_another() {
    let mut t = loaded(5);
    assert_eq!(t.reorder(0, 3), Some("1,2,3,0,4".to_string()));
    assert_eq!(t.current_order(), vec![1, 2, 3, 0, 4]);
    assert_eq!(t.reorder(4, 1), Some("4,1,2,3,0".to_string()));
    assert_eq!(t.reorder(2, 2), None);
    assert_eq!(t.reorder(-1, 2), None);
    assert_eq!(t.reorder(2, -1), None);
    assert_eq!(t.reorder(9, 2), None);
    assert_eq!(t.reorder(2, 9), Some("4,1,2,3,0".to_string()));
    assert_eq!(t.current_order(), vec![4, 1, 2, 3, 0]);
}

#[test]
fn a_stored_order_loads_back() {
    let mut t = loaded(12);
    let stored = t.reorder(11, 2).unwrap();
    let order = t.current_order();
    let mut other = PpsSidebarThumbnails::new();
    other.load_order(12, Some(&stored));
    assert_eq!(other.current_order(), order);
    assert_eq!(other.store_order(), stored);
}

#[test]
fn the_order_can_be_reset() {
    let mut t = loaded(4);
    let _ = t.reorder(3, 0);
    let _ = t.keep_thumbnail(1, 10);
    assert_eq!(t.reset_order(), "0,1,2,3");
    assert_eq!(t.current_order(), vec![0, 1, 2, 3]);
    assert_eq!(t.kept_thumbnails(), 0);
}

#[test]
fn pages_and_places_are_inverse() {
    let mut t = loaded(4);
    let _ = t.reorder(0, 2);
    for blank in [false, true] {
        let _ = t.relayout(blank, false);
        let shift = if blank { 1 } else { 0 };
        for page in 0..4 {
            assert_eq!(t.page_of_document(t.index_of_store(page)), page);
        }
        for place in 0..4 {
            assert_eq!(t.index_of_store(t.page_of_document(place + shift)), place + shift);
        }
        assert_eq!(t.page_of_document(4 + shift), -1);
        assert_eq!(t.page_of_document(-1), -1);
        assert_eq!(t.index_of_store(77), 77 + shift);
    }
    assert_eq!(t.page_of_document(0), -1);
    assert_eq!(t.page_of_document(i32::MIN), -1);
}

#[test]
fn bookmarks_are_kept_and_stored() {
    let mut t = loaded(5);
    t.load_bookmarks(Some("3,x,1,3"));
    assert!(t.is_bookmarked(1) && t.is_bookmarked(3) && !t.is_bookmarked(0));
    let (index, _) = t.set_bookmarked(4, true);
    assert_eq!(index, 4);
    let (_, stored) = t.set_bookmarked(1, false);
    let mut numbers: Vec<&str> = stored.split(',').collect();
    numbers.sort();
    assert_eq!(numbers, vec!["3", "4"]);
    let mut other = loaded(5);
    other.load_bookmarks(Some(&stored));
    for page in 0..5 {
        assert_eq!(other.is_bookmarked(page), t.is_bookmarked(page));
    }
    t.load_bookmarks(None);
    assert!(!t.is_bookmarked(3));
    assert_eq!(t.store_bookmarks(), "");
}

#[test]
fn the_list_shows_the_order_and_the_bookmarks() {
    let mut t = PpsSidebarThumbnails::new();
    let _ = t.relayout(true, false);
    let rows = t.fill_list_store(Some(2), Some("1,0"), Some("0"));
    assert_eq!(
        rows,
        vec![
            ThumbnailRow { page: None, bookmarked: false },
            ThumbnailRow { page: Some(1), bookmarked: false },
            ThumbnailRow { page: Some(0), bookmarked: true },
        ]
    );
    assert!(t.fill_list_store(None, Some("0,1"), None).is_empty());
    assert_eq!(t.current_order(), vec![1, 0]);
    assert!(!t.is_bookmarked(0));
}

#[test]
fn a_dual_layout_may_start_blank() {
    assert!(need_blank_head(true, false));
    assert!(!need_blank_head(true, true));
    assert!(!need_blank_head(false, false));
    let mut t = loaded(2);
    let single = t.relayout(false, false);
    assert_eq!(single.head, HeadChange::Keep);
    assert_eq!(
        (single.columns, single.maximum_size, single.tightening_threshold),
        (1, 210, 150)
    );
    assert_eq!(single.css_class, "columns-1");
    let dual = t.relayout(true, false);
    assert_eq!(dual.head, HeadChange::Insert);
    assert_eq!(
        (dual.columns, dual.maximum_size, dual.tightening_threshold),
        (2, 420, 300)
    );
    assert_eq!(dual.css_class, "columns-2");
    assert!(t.blank_head_mode());
    assert_eq!(t.relayout(true, true).head, HeadChange::Remove);
}

#[test]
fn places_come_into_view_and_go() {
    let mut t = loaded(3);
    assert_eq!(t.bind(0, false, false), Binding::Rendering);
    assert_eq!(t.bind(0, true, false), Binding::Shown);
    assert_eq!(t.bind(0, false, true), Binding::Pending);
    let _ = t.relayout(true, false);
    assert_eq!(t.bind(0, true, true), Binding::Blank);
    assert!(t.is_blank(0) && !t.is_blank(1));
    assert_eq!(
        t.unbind(0, 2, true),
        Unbinding { make_selectable: true, cancel_job: true }
    );
    assert_eq!(
        t.unbind(2, 2, true),
        Unbinding { make_selectable: false, cancel_job: false }
    );
    assert_eq!(t.dragged_page(0), None);
    assert_eq!(t.dragged_page(3), Some(2));
}

#[test]
fn selections_lead_to_pages() {
    let t = loaded(3);
    assert_eq!(t.selection_changed(false, 2), Some(2));
    assert_eq!(t.selection_changed(true, 2), None);
    assert_eq!(t.selection_changed(false, -1), None);
    assert_eq!(t.set_current_page(1, true, 3), Some(1));
    assert_eq!(t.set_current_page(1, false, 3), None);
    assert_eq!(t.set_current_page(1, true, 0), None);
}

#[test]
fn the_cache_gives_up_the_oldest() {
    let mut cache = ThumbnailCache::new();
    for i in 0..(MAX_LRU_SIZE as u32 + 3) {
        assert_eq!(cache.put(i, i as u64 + 1000), None);
    }
    assert_eq!(cache.put(0, 7), Some(1000));
    assert_eq!(cache.len(), MAX_LRU_SIZE + 3);
    assert_eq!(cache.lru_evict(&[]), vec![1001, 1002, 1003]);
    assert_eq!(cache.len(), MAX_LRU_SIZE);
    assert_eq!(cache.lru_evict(&[]), Vec::<u64>::new());
    cache.clear();
    assert_eq!(cache.len(), 0);
}

#[test]
fn the_cache_keeps_what_is_bound() {
    let mut cache = ThumbnailCache::new();
    for i in 0..(MAX_LRU_SIZE as u32 + 2) {
        let _ = cache.put(i, i as u64 + 1000);
    }
    assert_eq!(cache.lru_evict(&[1000, 1002, 1003]), vec![1001, 1004]);
    for i in 500..503 {
        let _ = cache.put(i, i as u64 + 1000);
    }
    // The bound ones were looked at last time, so others are older now.
    assert_eq!(cache.lru_evict(&[]), vec![1005, 1006, 1007]);
    let all: Vec<u64> = (1000..2000).collect();
    let _ = cache.put(900, 1900);
    assert_eq!(cache.lru_evict(&all), Vec::<u64>::new());
    assert_eq!(cache.len(), MAX_LRU_SIZE + 1);
}

#[test]
fn positions_are_ordered_stably() {
    assert_eq!(
        stable_positions(&vec![3, 1, 3, -2, 1]),
        vec![3, 1, 4, 0, 2]
    );
    assert_eq!(stable_positions(&vec![]), Vec::<usize>::new());
}

#[test]
fn pages_are_inserted_in_order() {
    let mut v = Vec::new();
    for x in [5, 1, 9, 5, 0] {
        insert_page(&mut v, x);
    }
    assert_eq!(v, vec![0, 1, 5, 9]);
}

#[test]
fn any_number_is_looked_up_without_a_blank_place() {
    let t = PpsSidebarThumbnails::new();
    assert!(!t.blank_head_mode());
    assert_eq!(t.index_of_store(i32::MAX), i32::MAX);
    assert_eq!(t.set_current_page(i32::MAX, true, 1), Some(i32::MAX));
}
