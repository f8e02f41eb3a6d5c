pub mod gaussian_mutation;
pub mod local_one_plus_one_na;
pub mod mutation_algorithm;
pub mod one_plus_one_na;
pub mod sa_local_mutation;
pub mod sa_one_plus_one_na;
