//! Scholarly-metadata helpers: canonical repository URLs and the alphaXiv source.
pub mod alphaxiv;
pub mod urls;
