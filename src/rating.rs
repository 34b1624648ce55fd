use vstd::prelude::*;

verus! {

/// One rating event: user `user_id` gave `stars` to movie `movie_id` at time `utc_millis`
/// (milliseconds since the Unix epoch).
pub struct Rating {
    pub user_id: usize,
    pub movie_id: usize,
    pub rating_id: usize,
    pub stars: i32,
    pub utc_millis: i64,
}

impl Rating {
    /// A rating event stamped with time `utc_millis`.
    pub fn new(user_id: usize, movie_id: usize, stars: i32, utc_millis: i64) -> (r: Rating)
        ensures
            r.user_id == user_id,
            r.movie_id == movie_id,
            r.rating_id == 1,
            r.stars == stars,
            r.utc_millis == utc_millis,
    {
        Rating { user_id, movie_id, rating_id: 1, stars, utc_millis }
    }
}

/// A user as the recommender sees it: the ratings it gave, keyed by movie, its current queue
/// of recommended movies, and when that queue was last updated (milliseconds since the Unix epoch).
pub struct RecUser {
    pub user_id: usize,
    pub ratings: Vec<(usize, Rating)>,
    pub rec_queue: Vec<usize>,
    pub last_updated: i64,
}

impl RecUser {
    /// A user with no ratings and an empty queue, stamped with time `utc_millis`.
    pub fn new(user_id: usize, utc_millis: i64) -> (r: RecUser)
        ensures
            r.user_id == user_id,
            r.ratings@.len() == 0,
            r.rec_queue@.len() == 0,
            r.last_updated == utc_millis,
    {
        RecUser { user_id, ratings: Vec::new(), rec_queue: Vec::new(), last_updated: utc_millis }
    }
}

} // verus!
