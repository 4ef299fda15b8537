use tangled::borrow_state::BorrowState;
use tangled::tangled::Tangled;

fn sample() -> Tangled<i32> {
    // front buffer [1, 2], one chunk [3, 4, 5]
    let mut t = Tangled::from(vec![1, 2]);
    {
        let mut b = t.borrow_mut();
        b.push_vec(vec![3, 4, 5]);
    }
    t
}

#[test]
fn new_is_empty() {
    let t: Tangled<u8> = Tangled::new();
    assert_eq!(t.len(), 0);
    assert_eq!(t.convert_index(0), None);
    let parts = t.display_parts();
    assert_eq!(parts.len(), 1);
    assert_eq!(parts[0], Some(&Vec::new()));
}

#[test]
fn from_counts_front_buffer() {
    let t = Tangled::from(vec![10, 20, 30]);
    assert_eq!(t.len(), 3);
    assert_eq!(t.convert_index(0), Some((0, 0)));
    assert_eq!(t.convert_index(2), Some((2, 0)));
    assert_eq!(t.convert_index(3), None);
}

#[test]
fn push_vec_extends_count_and_prefix() {
    let t = sample();
    assert_eq!(t.len(), 5);
    // flat index 3 is the second element of the first chunk
    assert_eq!(t.convert_index(3), Some((1, 1)));
    assert_eq!(t.convert_index(2), Some((0, 1)));
    assert_eq!(t.convert_index(4), Some((2, 1)));
    assert_eq!(t.convert_index(5), None);
}

#[test]
fn convert_index_locates_every_element() {
    // law: on a consistent layout, the converted index reaches the flat element
    let mut t = Tangled::from(vec![0, 1]);
    {
        let mut b = t.borrow_mut();
        b.push_vec(vec![2, 3, 4]);
        b.push_vec(vec![5, 6]);
        b.push_vec(vec![7, 8, 9, 10]);
    }
    for i in 2..11usize {
        assert_eq!(t.get_raw(i), Some(&(i as i32)));
    }
    assert_eq!(t.convert_index(7), Some((0, 3)));
    assert_eq!(t.convert_index(10), Some((3, 3)));
}

#[test]
fn get_raw_reaches_chunk_elements() {
    let t = sample();
    assert_eq!(t.get_raw(2), Some(&3));
    assert_eq!(t.get_raw(3), Some(&4));
    assert_eq!(t.get_raw(4), Some(&5));
    assert_eq!(t.get_raw(5), None);
}

#[test]
fn push_fast_then_pop_fast_round_trip() {
    let mut t = Tangled::from(vec![1, 2]);
    t.push_fast(9);
    assert_eq!(t.convert_index(2), Some((2, 0)));
    assert_eq!(t.len(), 2);
    assert_eq!(t.pop_fast(), Some(9));
    assert_eq!(t.convert_index(1), Some((1, 0)));
    assert_eq!(t.pop_fast(), Some(2));
    assert_eq!(t.pop_fast(), Some(1));
    assert_eq!(t.pop_fast(), None);
    assert_eq!(t.len(), 2);
}

#[test]
fn push_appends_to_last_chunk() {
    let mut t = sample();
    {
        let mut b = t.borrow_mut();
        b.push(6);
    }
    // the recorded count does not follow, the prefix table does
    assert_eq!(t.len(), 5);
    assert_eq!(t.get_raw(4), Some(&5));
    let parts = t.display_parts();
    assert_eq!(parts[1], Some(&vec![3, 4, 5, 6]));
}

#[test]
fn drop_vec_only_unlent_chunks() {
    let mut t = sample();
    let mut b = t.borrow_mut();
    assert_eq!(b.drop_vec(7), None);
    assert_eq!(b.drop_vec(0), Some(0));
    assert_eq!(b.drop_vec(0), None);
    drop(b);
    assert_eq!(t.display_parts()[1], None);
    assert_eq!(t.get_raw(3), None);
}

#[test]
fn shared_loan_blocks_drop() {
    // law: a slot lent out shared cannot be dropped
    let mut t = sample();
    let mut b = t.borrow_mut();
    let h = b.get_handle(0);
    assert!(h.is_some());
    assert_eq!(b.drop_vec(0), None);
    assert!(b.get_handle(1).is_none());
}

#[test]
fn release_of_first_shared_loan_frees_chunk() {
    let mut t = sample();
    let mut h = {
        let mut b = t.borrow_mut();
        b.get_handle(0).unwrap()
    };
    assert_eq!(h.get_element(&t, 1), Some(&4));
    assert_eq!(*h.deref(&t), 1);
    h.release(&mut t);
    assert_eq!(t.display_parts()[1], None);
    assert_eq!(h.get_element(&t, 1), None);
}

#[test]
fn second_shared_loan_release_keeps_chunk() {
    let mut t = sample();
    let mut h2 = {
        let mut b = t.borrow_mut();
        let _h1 = b.get_handle(0).unwrap();
        b.get_handle(0).unwrap()
    };
    h2.release(&mut t);
    assert_eq!(t.display_parts()[1], Some(&vec![3, 4, 5]));
}

#[test]
fn mut_read_lends_the_chunk() {
    let mut t = Tangled::from(vec![1, 2]);
    {
        let mut b = t.borrow_mut();
        b.push_vec(vec![3, 4]);
        b.push_vec(vec![5]);
        // flat 2 converts to chunk number 1; slot 1 is lent out
        let _h = b.read(2);
        assert_eq!(b.drop_vec(1), None);
        assert_eq!(b.drop_vec(0), Some(0));
    }
}

#[test]
fn write_then_read() {
    // law: a read after a write gives the written value
    let mut t = sample();
    {
        let mut b = t.borrow_mut();
        b.write(3, 40);
        assert_eq!(b.read_unchecked(3), Some(&40));
        b.write(5, 99);
    }
    assert_eq!(t.get_raw(3), Some(&40));
    assert_eq!(t.display_parts()[1], Some(&vec![3, 40, 5]));
}

#[test]
fn alter_applies_function() {
    let mut t = sample();
    {
        let mut b = t.borrow_mut();
        b.alter(4, |x: &i32| x * 10);
    }
    assert_eq!(t.get_raw(4), Some(&50));
}

#[test]
fn insert_vec_fills_empty_slot_only() {
    let mut t = sample();
    let mut b = t.borrow_mut();
    assert_eq!(b.insert_vec(0, vec![7]), None);
    assert_eq!(b.drop_vec(0), Some(0));
    assert_eq!(b.insert_vec(0, vec![7, 8]), Some(()));
    drop(b);
    assert_eq!(t.display_parts()[1], Some(&vec![7, 8]));
}

#[test]
fn get_pointer_at_index_names_slot() {
    let mut t = Tangled::from(vec![1]);
    let mut b = t.borrow_mut();
    b.push_vec(vec![2, 3]);
    b.push_vec(vec![4]);
    // prefix [1, 3, 4]: the first entry above the index names the slot
    assert_eq!(b.get_pointer_at_index(0), Some(0));
    assert_eq!(b.get_pointer_at_index(1), Some(1));
    assert_eq!(b.get_pointer_at_index(2), Some(1));
    assert_eq!(b.drop_vec(1), Some(1));
    assert_eq!(b.get_pointer_at_index(1), None);
}

#[test]
fn index_positions() {
    let t = sample();
    let s = t.borrow();
    assert_eq!(*s.index((0, 0)), 1);
    assert_eq!(*s.index((1, 0)), 2);
    assert_eq!(*s.index((2, 1)), 5);
    assert_eq!(*s.index((0, 1)), 3);
}

#[test]
fn index_mut_writes_through() {
    let mut t = sample();
    {
        let mut b = t.borrow_mut();
        *b.index_mut((1, 0)) = 20;
        *b.index_mut((0, 1)) = 30;
        assert_eq!(*b.index((1, 0)), 20);
    }
    assert_eq!(t.display_parts()[0], Some(&vec![1, 20]));
    assert_eq!(t.get_raw(2), Some(&30));
}

#[test]
fn shared_read_paths() {
    let mut t = Tangled::from(vec![1, 2]);
    {
        let mut b = t.borrow_mut();
        b.push_vec(vec![3, 4, 5]);
        b.push_vec(vec![6]);
    }
    let s = t.borrow();
    assert_eq!(s.read(0), Some(&1));
    assert_eq!(s.read(1), Some(&2));
    // index 3: rest 1 converts to (1, 0); a handle on slot 0 reads offset 1
    assert_eq!(s.read(3), Some(&4));
    assert_eq!(s.read_unchecked(5), Some(&6));
}

#[test]
fn iter_walks_flat_sequence() {
    // law: iteration walks the flat sequence in order
    let mut t = Tangled::from(vec![1, 2]);
    {
        let mut b = t.borrow_mut();
        b.push_vec(vec![3, 4]);
        b.push_vec(vec![5]);
    }
    let mut it = t.iter();
    let mut seen = Vec::new();
    while let Some(v) = it.next() {
        seen.push(*v);
    }
    assert_eq!(seen, vec![1, 2, 3, 4, 5]);
    assert_eq!(it.next(), None);
}

#[test]
fn iter_on_front_buffer_only() {
    let t = Tangled::from(vec![7, 8]);
    let mut it = t.iter();
    assert_eq!(it.next(), Some(&7));
    assert_eq!(it.next(), Some(&8));
    assert_eq!(it.next(), None);
}

#[test]
fn iter_stops_at_empty_chunk() {
    let mut t = Tangled::from(vec![1]);
    {
        let mut b = t.borrow_mut();
        b.push_vec(vec![]);
        b.push_vec(vec![2]);
    }
    let mut it = t.iter();
    assert_eq!(it.next(), Some(&1));
    assert_eq!(it.next(), None);
}

#[test]
fn iter_mut_writes_every_element() {
    let mut t = Tangled::from(vec![1, 2]);
    {
        let mut b = t.borrow_mut();
        b.push_vec(vec![3, 4]);
    }
    {
        let mut it = t.iter_mut();
        while let Some(v) = it.next() {
            *v *= 10;
        }
    }
    let parts = t.display_parts();
    assert_eq!(parts[0], Some(&vec![10, 20]));
    assert_eq!(parts[1], Some(&vec![30, 40]));
}

#[test]
fn borrow_state_values() {
    let s = BorrowState::Shared(2);
    assert_eq!(s, BorrowState::Shared(2));
    assert_ne!(s, BorrowState::Exclusive);
    assert_ne!(BorrowState::Dropped, BorrowState::Exclusive);
}

#[test]
fn push_fast_without_chunks_extends_flat() {
    // law: on a vector without chunks, push_fast appends to the flat sequence
    let mut t = Tangled::from(vec![1]);
    t.push_fast(2);
    t.push_fast(3);
    let mut it = t.iter();
    assert_eq!(it.next(), Some(&1));
    assert_eq!(it.next(), Some(&2));
    assert_eq!(it.next(), Some(&3));
    assert_eq!(it.next(), None);
}

#[test]
fn push_fast_with_chunks_leaves_later_prefix_entries() {
    // the prefix entries after the first do not follow push_fast
    let mut t = Tangled::from(vec![1]);
    {
        let mut b = t.borrow_mut();
        b.push_vec(vec![2, 3]);
    }
    t.push_fast(9);
    assert_eq!(t.len(), 3);
    assert_eq!(t.convert_index(1), Some((1, 0)));
    assert_eq!(t.convert_index(2), Some((0, 1)));
}

#[test]
fn unsorted_iter_visits_chunks_in_address_order() {
    let mut t: Tangled<i32> = Tangled::new();
    {
        let mut b = t.borrow_mut();
        b.push_vec(vec![10, 11]);
        b.push_vec(vec![20, 21]);
        b.push_vec(vec![30, 31]);
    }
    let mut seen = Vec::new();
    {
        let mut it = t.unsorted_iter();
        while let Some(v) = it.next() {
            seen.push(*v);
        }
    }
    // each chunk is read at positions 1 then 0, chunks in address order
    assert_eq!(seen.len(), 6);
    for pair in seen.chunks(2) {
        assert_eq!(pair[0], pair[1] + 1);
    }
    seen.sort();
    assert_eq!(seen, vec![10, 11, 20, 21, 30, 31]);
}

#[test]
fn unsorted_iter_on_chunkless_vector_is_ordinary() {
    let mut t = Tangled::from(vec![1, 2]);
    let mut it = t.unsorted_iter();
    assert_eq!(it.next(), Some(&mut 1));
    assert_eq!(it.next(), Some(&mut 2));
    assert_eq!(it.next(), None);
}

#[test]
fn indexing_inverts_locating_for_first_chunk() {
    // law: indexing by what convert_index gives reaches the element (chunk numbers 0 and 1)
    let mut t = Tangled::from(vec![1, 2]);
    {
        let mut b = t.borrow_mut();
        b.push_vec(vec![3, 4, 5]);
    }
    for i in 0..5usize {
        let (o, k) = t.convert_index(i).unwrap();
        assert!(k <= 1);
        assert_eq!(*t.borrow().index((o, k)), i as i32 + 1);
    }
}

#[test]
fn iter_mut_written_values_land_in_order() {
    // law: the writing iterator walks the flat sequence and writes land in place
    let mut t = Tangled::from(vec![1]);
    {
        let mut b = t.borrow_mut();
        b.push_vec(vec![2, 3]);
        b.push_vec(vec![4]);
    }
    {
        let mut it = t.iter_mut();
        let mut k = 100;
        while let Some(v) = it.next() {
            *v = k;
            k += 1;
        }
        assert_eq!(it.next(), None);
    }
    let mut it = t.iter();
    let mut seen = Vec::new();
    while let Some(v) = it.next() {
        seen.push(*v);
    }
    assert_eq!(seen, vec![100, 101, 102, 103]);
}

#[test]
fn push_vec_registers_new_slot() {
    // law: the new slot is registered as shared with no borrowers
    let mut t = Tangled::from(vec![1]);
    let mut b = t.borrow_mut();
    b.push_vec(vec![2]);
    b.push_vec(vec![3, 4]);
    // shared with no borrowers: it can be dropped, and lent out
    assert!(b.get_handle(1).is_some());
    assert_eq!(b.drop_vec(1), None);
    assert_eq!(b.drop_vec(0), Some(0));
}
