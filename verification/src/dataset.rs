//! Dataset management for code-generation training examples.
//!
//! File formats are read outside the library; the splitting logic that
//! partitions a dataset lives here, on counts the caller has already
//! fixed.

use vstd::prelude::*;

verus! {

/// A single training example: natural language paired with shader code.
#[derive(Debug)]
pub struct WGSLExample {
    pub natural_language: String,
    pub wgsl_code: String,
}

impl Clone for WGSLExample {
    /// An exact copy of the example.
    fn clone(&self) -> (r: Self)
        ensures
            r == *self,
    {
        WGSLExample {
            natural_language: self.natural_language.clone(),
            wgsl_code: self.wgsl_code.clone(),
        }
    }
}

/// A dataset of training examples.
#[derive(Debug, Clone)]
pub struct WGSLDataset {
    pub examples: Vec<WGSLExample>,
}

impl WGSLDataset {
    /// An empty dataset.
    pub fn new() -> (r: Self)
        ensures
            r.examples@.len() == 0,
    {
        WGSLDataset { examples: Vec::new() }
    }

    /// Number of examples.
    pub fn len(&self) -> (n: usize)
        ensures
            n == self.examples@.len(),
    {
        self.examples.len()
    }

    /// Whether the dataset holds no examples.
    pub fn is_empty(&self) -> (r: bool)
        ensures
            r == (self.examples@.len() == 0),
    {
        self.examples.len() == 0
    }

    /// Partitions the examples into three consecutive runs: the first
    /// `train_size`, the next `val_size`, and the rest, in order.
    pub fn split_at(&self, train_size: usize, val_size: usize) -> (r: (Self, Self, Self))
        requires
            train_size + val_size <= self.examples@.len(),
        ensures
            r.0.examples@ == self.examples@.subrange(0, train_size as int),
            r.1.examples@ == self.examples@.subrange(
                train_size as int,
                train_size + val_size as int,
            ),
            r.2.examples@ == self.examples@.subrange(
                train_size + val_size as int,
                self.examples@.len() as int,
            ),
    {
        let n = self.examples.len();
        let end = train_size + val_size;
        let mut train: Vec<WGSLExample> = Vec::new();
        let mut val: Vec<WGSLExample> = Vec::new();
        let mut test: Vec<WGSLExample> = Vec::new();
        let mut i: usize = 0;
        while i < train_size
            invariant
                i <= train_size,
                train_size + val_size <= self.examples@.len(),
                train@ =~= self.examples@.subrange(0, i as int),
            decreases train_size - i,
        {
            train.push(self.examples[i].clone());
            proof {
                assert(train@ =~= self.examples@.subrange(0, i + 1));
            }
            i += 1;
        }
        let mut j: usize = train_size;
        while j < end
            invariant
                end == train_size + val_size,
                train_size <= j <= end,
                end <= self.examples@.len(),
                val@ =~= self.examples@.subrange(train_size as int, j as int),
            decreases train_size + val_size - j,
        {
            val.push(self.examples[j].clone());
            proof {
                assert(val@ =~= self.examples@.subrange(train_size as int, j + 1));
            }
            j += 1;
        }
        let mut k: usize = end;
        while k < n
            invariant
                end == train_size + val_size,
                end <= k <= n,
                n == self.examples@.len(),
                test@ =~= self.examples@.subrange(train_size + val_size as int, k as int),
            decreases n - k,
        {
            test.push(self.examples[k].clone());
            proof {
                assert(test@ =~= self.examples@.subrange(train_size + val_size as int, k + 1));
            }
            k += 1;
        }
        (WGSLDataset { examples: train }, WGSLDataset { examples: val }, WGSLDataset {
            examples: test,
        })
    }
}

impl Default for WGSLDataset {
    /// The empty dataset.
    fn default() -> (r: Self)
        ensures
            r.examples@.len() == 0,
    {
        WGSLDataset::new()
    }
}

} // verus!
