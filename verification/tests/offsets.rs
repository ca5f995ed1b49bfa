use webp_dec::array::{to_array_ref, to_array_ref_mut};
use webp_dec::offsetref::{OffsetArray, OffsetSliceRef, OffsetSliceRefMut};

#[test]
fn offset_slice_ref_reads_around_zero() {
    let data = [10u8, 11, 12, 13, 14, 15];
    let r = OffsetSliceRef::new(&data, 2);
    assert_eq!(*r.index(-2), 10);
    assert_eq!(*r.index(0), 12);
    assert_eq!(*r.index(3), 15);
    let s = r.with_offset(3);
    assert_eq!(s.zero, 5);
    assert_eq!(*s.index(-1), 14);
    // moving zero then reading equals reading at the summed offset
    assert_eq!(*r.with_offset(1).index(2), *r.index(3));
}

#[test]
fn offset_slice_ref_mut_writes_around_zero() {
    let mut data = [0u8; 6];
    {
        let mut m = OffsetSliceRefMut::new(&mut data, 3);
        m.set(-3, 7);
        m.set(2, 9);
        assert_eq!(*m.index(-3), 7);
        m.move_zero(-1);
        assert_eq!(m.zero, 2);
        m.set(0, 5);
        {
            let mut n = m.with_offset(2);
            assert_eq!(n.zero, 4);
            n.set(-1, 4);
        }
        assert_eq!(m.zero, 2);
    }
    assert_eq!(data, [7, 0, 5, 4, 0, 9]);
}

#[test]
fn offset_array_index_set_split() {
    let mut a = OffsetArray::<u8, 6, 2> { arr: [1, 2, 3, 4, 5, 6] };
    assert_eq!(*a.index(-2), 1);
    assert_eq!(*a.index(3), 6);
    a.set(0, 30);
    assert_eq!(a.arr, [1, 2, 30, 4, 5, 6]);
    {
        let (left, right) = a.split_at_mut(1);
        assert_eq!(left, &[1, 2, 30]);
        right[0] = 40;
    }
    assert_eq!(a.arr[3], 40);
    {
        let mut w = a.with_offset(-1);
        assert_eq!(w.zero, 1);
        w.set(-1, 0);
    }
    assert_eq!(a.arr[0], 0);
}

#[test]
fn offset_array_chunks() {
    let mut a = OffsetArray::<u8, 7, 3> { arr: [0u8; 7] };
    let mut count = 0;
    for (i, c) in a.chunks_exact_mut(3).enumerate() {
        assert_eq!(c.len(), 3);
        c[0] = i as u8 + 1;
        count += 1;
    }
    assert_eq!(count, 2);
    assert_eq!(a.arr, [1, 0, 0, 2, 0, 0, 0]);
    let lens: Vec<usize> = a.chunks_mut(3).map(|c| c.len()).collect();
    assert_eq!(lens, vec![3, 3, 1]);
    for c in a.chunks_mut(3) {
        c[c.len() - 1] = 9;
    }
    assert_eq!(a.arr, [1, 0, 9, 2, 0, 9, 9]);
}

#[test]
fn array_views_of_slices() {
    let v = vec![4u8, 5, 6, 7, 8];
    let r: &[u8; 3] = to_array_ref(&v);
    assert_eq!(r, &[4, 5, 6]);
    let mut w = vec![0u8; 5];
    {
        let m: &mut [u8; 2] = to_array_ref_mut(&mut w);
        m[1] = 3;
    }
    assert_eq!(w, vec![0, 3, 0, 0, 0]);
}
