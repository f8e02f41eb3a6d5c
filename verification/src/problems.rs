pub mod cartpole_problem;
pub mod na_problem;
pub mod sphere_continuous_problem;
pub mod sphere_discrete_problem;
