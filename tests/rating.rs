use recsys::rating::{Rating, RecUser};

#[test]
fn rating_keeps_its_fields_and_stamp() {
    let r = Rating::new(3, 7, 4, 1_700_000_000_123);
    assert_eq!((r.user_id, r.movie_id, r.rating_id, r.stars), (3, 7, 1, 4));
    assert_eq!(r.utc_millis, 1_700_000_000_123);
}

#[test]
fn new_user_starts_empty() {
    let u = RecUser::new(12, 1_600_000_000_000);
    assert_eq!(u.user_id, 12);
    assert!(u.ratings.is_empty());
    assert!(u.rec_queue.is_empty());
    assert_eq!(u.last_updated, 1_600_000_000_000);
}
