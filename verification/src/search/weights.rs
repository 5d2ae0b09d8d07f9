use vstd::prelude::*;

verus! {

/// The search's tunable weights, at their default values.
pub struct W;

impl W {
    pub fn main_bonus_base() -> (r: i64)
        ensures
            r == 128,
    {
        128
    }

    pub fn main_bonus_scale1() -> (r: i64)
        ensures
            r == 128,
    {
        128
    }

    pub fn main_bonus_max() -> (r: i64)
        ensures
            r == 2048,
    {
        2048
    }

    pub fn main_malus_base() -> (r: i64)
        ensures
            r == 128,
    {
        128
    }

    pub fn main_malus_scale1() -> (r: i64)
        ensures
            r == 128,
    {
        128
    }

    pub fn main_malus_max() -> (r: i64)
        ensures
            r == 2048,
    {
        2048
    }

    pub fn soft_time_div() -> (r: u64)
        ensures
            r == 250648,
    {
        250648
    }

    pub fn soft_time_inc() -> (r: u64)
        ensures
            r == 4027,
    {
        4027
    }

    pub fn hard_time_div() -> (r: u64)
        ensures
            r == 111864,
    {
        111864
    }

    pub fn hard_time_inc() -> (r: u64)
        ensures
            r == 3877,
    {
        3877
    }
}

} // verus!
