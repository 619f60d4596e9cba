use deadaim::view::{view_len, EnemyView, ViewError};
use deadaim::Enemy;

fn three() -> Vec<Enemy> {
    vec![
        Enemy { id: 10, x: 1.0f32.to_bits(), y: 2.0f32.to_bits(), alive: true },
        Enemy { id: 11, x: 3.0f32.to_bits(), y: 4.0f32.to_bits(), alive: false },
        Enemy { id: 12, x: 5.0f32.to_bits(), y: 6.0f32.to_bits(), alive: true },
    ]
}

#[test]
fn view_len_refuses_an_absent_buffer() {
    assert_eq!(view_len(None, 3), Err(ViewError::NullBuffer));
    assert_eq!(view_len(None, 0), Err(ViewError::NullBuffer));
    assert_eq!(view_len(None, -1), Err(ViewError::NullBuffer));
}

#[test]
fn view_len_refuses_a_count_that_is_not_positive() {
    assert_eq!(view_len(Some(3), 0), Err(ViewError::NonPositiveCount));
    assert_eq!(view_len(Some(3), -1), Err(ViewError::NonPositiveCount));
    assert_eq!(view_len(Some(0), i32::MIN), Err(ViewError::NonPositiveCount));
}

#[test]
fn view_len_refuses_a_count_past_the_buffer() {
    assert_eq!(view_len(Some(3), 4), Err(ViewError::CountExceedsBuffer));
    assert_eq!(view_len(Some(0), 1), Err(ViewError::CountExceedsBuffer));
}

#[test]
fn view_len_gives_the_count() {
    assert_eq!(view_len(Some(3), 3), Ok(3));
    assert_eq!(view_len(Some(3), 1), Ok(1));
    assert_eq!(view_len(Some(usize::MAX), i32::MAX), Ok(i32::MAX as usize));
}

#[test]
fn view_shows_exactly_the_first_count_records() {
    let buffer = three();
    let view = match EnemyView::new(Some(&buffer[..]), 2) {
        Ok(v) => v,
        Err(e) => panic!("no view: {:?}", e),
    };
    assert_eq!(view.len(), 2);
    assert_eq!(view.get(0), Some(buffer[0]));
    assert_eq!(view.get(1), Some(buffer[1]));
    assert_eq!(view.get(2), None);
    assert_eq!(view.get(usize::MAX), None);
}

#[test]
fn view_of_the_whole_buffer() {
    let buffer = three();
    let view = match EnemyView::new(Some(&buffer[..]), 3) {
        Ok(v) => v,
        Err(e) => panic!("no view: {:?}", e),
    };
    assert_eq!(view.len(), 3);
    assert_eq!(view.get(2), Some(buffer[2]));
    assert_eq!(view.get(3), None);
}

#[test]
fn view_is_refused_with_the_reason() {
    let buffer = three();
    assert_eq!(EnemyView::new(None, 3).err(), Some(ViewError::NullBuffer));
    assert_eq!(EnemyView::new(None, -3).err(), Some(ViewError::NullBuffer));
    assert_eq!(EnemyView::new(Some(&buffer[..]), 0).err(), Some(ViewError::NonPositiveCount));
    assert_eq!(EnemyView::new(Some(&buffer[..]), -7).err(), Some(ViewError::NonPositiveCount));
    assert_eq!(EnemyView::new(Some(&buffer[..]), 4).err(), Some(ViewError::CountExceedsBuffer));
    let empty: Vec<Enemy> = Vec::new();
    assert_eq!(EnemyView::new(Some(&empty[..]), 0).err(), Some(ViewError::NonPositiveCount));
    assert_eq!(EnemyView::new(Some(&empty[..]), 1).err(), Some(ViewError::CountExceedsBuffer));
}
