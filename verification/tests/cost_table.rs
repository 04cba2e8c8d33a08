use content_aware_resize::{DPTable, GradientBuffer, ResizeError};

fn field(width: u32, height: u32, cells: Vec<u16>) -> GradientBuffer {
    GradientBuffer::from_raw(width, height, cells).unwrap()
}

fn costs_of(t: &DPTable) -> Vec<u64> {
    let mut out = Vec::new();
    for row in 0..t.height() {
        for col in 0..t.width() {
            out.push(t.get(col, row));
        }
    }
    out
}

#[test]
fn costs_accumulate_from_the_bottom_row_up() {
    let g = field(3, 3, vec![1, 2, 3, 4, 5, 6, 7, 8, 9]);
    let t = DPTable::from_gradient_buffer(&g).unwrap();
    assert_eq!((t.width(), t.height()), (3, 3));
    assert_eq!(costs_of(&t), vec![12, 13, 15, 11, 12, 14, 7, 8, 9]);
}

#[test]
fn right_edge_adds_its_own_gradient() {
    let g = field(3, 2, vec![1, 1, 50, 9, 9, 9]);
    let t = DPTable::from_gradient_buffer(&g).unwrap();
    assert_eq!(costs_of(&t), vec![10, 10, 59, 9, 9, 9]);
}

#[test]
fn edges_see_two_cells_and_the_middle_three() {
    let g = field(4, 2, vec![0, 0, 0, 0, 5, 9, 9, 1]);
    let t = DPTable::from_gradient_buffer(&g).unwrap();
    assert_eq!(costs_of(&t), vec![5, 5, 1, 1, 5, 9, 9, 1]);
}

#[test]
fn two_columns_have_no_middle() {
    let g = field(2, 3, vec![1, 2, 30, 4, 5, 60]);
    let t = DPTable::from_gradient_buffer(&g).unwrap();
    assert_eq!(costs_of(&t), vec![10, 11, 35, 9, 5, 60]);
}

#[test]
fn single_row_is_its_own_cost() {
    let g = field(4, 1, vec![9, 3, 3, 7]);
    let t = DPTable::from_gradient_buffer(&g).unwrap();
    assert_eq!(costs_of(&t), vec![9, 3, 3, 7]);
    assert_eq!(t.path_start_index(), 1);
}

#[test]
fn costs_grow_past_sixteen_bits() {
    let g = field(2, 4, vec![65535; 8]);
    let t = DPTable::from_gradient_buffer(&g).unwrap();
    assert_eq!(
        costs_of(&t),
        vec![262140, 262140, 196605, 196605, 131070, 131070, 65535, 65535]
    );
}

#[test]
fn fewer_than_two_columns_is_refused() {
    assert_eq!(
        DPTable::from_gradient_buffer(&field(1, 3, vec![1, 2, 3])).err(),
        Some(ResizeError::TooNarrow)
    );
    assert_eq!(
        DPTable::from_gradient_buffer(&field(0, 3, Vec::new())).err(),
        Some(ResizeError::TooNarrow)
    );
}

#[test]
fn no_row_is_refused() {
    assert_eq!(
        DPTable::from_gradient_buffer(&field(3, 0, Vec::new())).err(),
        Some(ResizeError::TooNarrow)
    );
}

#[test]
fn set_changes_one_cell() {
    let g = field(3, 2, vec![0; 6]);
    let mut t = DPTable::from_gradient_buffer(&g).unwrap();
    t.set(2, 1, 77);
    assert_eq!(costs_of(&t), vec![0, 0, 0, 0, 0, 77]);
    t.set(0, 0, 5);
    t.set(1, 0, u64::MAX);
    assert_eq!(costs_of(&t), vec![5, u64::MAX, 0, 0, 0, 77]);
    assert_eq!(t.get(1, 0), u64::MAX);
    assert_eq!(t.get(2, 1), 77);
}

#[test]
fn start_is_the_first_of_the_least() {
    let g = field(5, 1, vec![4, 2, 9, 2, 2]);
    let t = DPTable::from_gradient_buffer(&g).unwrap();
    assert_eq!(t.path_start_index(), 1);
    let g = field(3, 1, vec![7, 7, 7]);
    let t = DPTable::from_gradient_buffer(&g).unwrap();
    assert_eq!(t.path_start_index(), 0);
    let g = field(3, 1, vec![7, 7, 6]);
    let t = DPTable::from_gradient_buffer(&g).unwrap();
    assert_eq!(t.path_start_index(), 2);
}

#[test]
fn start_looks_at_the_top_row_only() {
    let g = field(3, 2, vec![5, 5, 5, 9, 9, 0]);
    let mut t = DPTable::from_gradient_buffer(&g).unwrap();
    assert_eq!(costs_of(&t), vec![14, 5, 5, 9, 9, 0]);
    assert_eq!(t.path_start_index(), 1);
    t.set(0, 1, 0);
    assert_eq!(t.path_start_index(), 1);
    t.set(2, 0, 4);
    assert_eq!(t.path_start_index(), 2);
}

#[test]
fn table_exports_as_clipped_magnitudes() {
    let g = field(2, 2, vec![65535, 1, 65535, 2]);
    let mut t = DPTable::from_gradient_buffer(&g).unwrap();
    assert_eq!(costs_of(&t), vec![65537, 3, 65535, 2]);
    t.set(1, 1, 65536);
    let shown = t.to_gradient_buffer();
    assert_eq!((shown.width(), shown.height()), (2, 2));
    assert_eq!(shown.get(0, 0), 65535);
    assert_eq!(shown.get(1, 0), 3);
    assert_eq!(shown.get(0, 1), 65535);
    assert_eq!(shown.get(1, 1), 65535);
}
