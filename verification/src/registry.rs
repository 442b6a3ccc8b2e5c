use vstd::prelude::*;

verus! {

/// One image-transformation kernel under benchmark.
#[derive(Clone, Copy, PartialEq, Eq, Structural, Debug)]
pub enum Kernel {
    InvertBuiltin,
    InvertManual,
    GrayscaleImage,
    GrayscaleManual,
    BlurGaussian,
    SobelGradient,
    CannyDetect,
    Rotate90,
    Rotate45Bilinear,
    LeeFilter,
}

/// One catalog entry: a task name shared by variants that solve the same
/// problem, the variant's slug (used to name its output file), and the
/// kernel to run.
pub struct BenchmarkDef {
    pub task: String,
    pub slug: String,
    pub kernel: Kernel,
}

impl BenchmarkDef {
    /// An exact copy of the entry.
    pub fn duplicate(&self) -> (r: Self)
        ensures
            r == *self,
    {
        BenchmarkDef { task: self.task.clone(), slug: self.slug.clone(), kernel: self.kernel }
    }
}

/// The predicate the task filter selects by: exact, case-sensitive
/// equality of the task name.
pub open spec fn task_pred(t: Seq<char>) -> spec_fn(BenchmarkDef) -> bool {
    |d: BenchmarkDef| d.task@ == t
}

/// The static benchmark catalog, in execution order.
pub fn registry() -> (r: Vec<BenchmarkDef>)
    ensures
        r@.len() == 10,
        r@[0].task@ == "invert"@ && r@[0].slug@ == "image-invert"@ && r@[0].kernel
            == Kernel::InvertBuiltin,
        r@[1].task@ == "invert"@ && r@[1].slug@ == "rust-manual-invert"@ && r@[1].kernel
            == Kernel::InvertManual,
        r@[2].task@ == "grayscale"@ && r@[2].slug@ == "image-grayscale"@ && r@[2].kernel
            == Kernel::GrayscaleImage,
        r@[3].task@ == "grayscale"@ && r@[3].slug@ == "rust-manual-grayscale"@ && r@[3].kernel
            == Kernel::GrayscaleManual,
        r@[4].task@ == "blur"@ && r@[4].slug@ == "imageproc-blur"@ && r@[4].kernel
            == Kernel::BlurGaussian,
        r@[5].task@ == "edge_detect_sobel"@ && r@[5].slug@ == "imageproc-sobel"@ && r@[5].kernel
            == Kernel::SobelGradient,
        r@[6].task@ == "edge_detect_canny"@ && r@[6].slug@ == "imageproc-canny"@ && r@[6].kernel
            == Kernel::CannyDetect,
        r@[7].task@ == "rotate_90"@ && r@[7].slug@ == "image-rotate90"@ && r@[7].kernel
            == Kernel::Rotate90,
        r@[8].task@ == "rotate_arbitrary"@ && r@[8].slug@ == "rust-rotate45"@ && r@[8].kernel
            == Kernel::Rotate45Bilinear,
        r@[9].task@ == "lee_filter"@ && r@[9].slug@ == "rust-manual-lee"@ && r@[9].kernel
            == Kernel::LeeFilter,
{
    let mut r: Vec<BenchmarkDef> = Vec::new();
    r.push(
        BenchmarkDef {
            task: "invert".to_owned(),
            slug: "image-invert".to_owned(),
            kernel: Kernel::InvertBuiltin,
        },
    );
    r.push(
        BenchmarkDef {
            task: "invert".to_owned(),
            slug: "rust-manual-invert".to_owned(),
            kernel: Kernel::InvertManual,
        },
    );
    r.push(
        BenchmarkDef {
            task: "grayscale".to_owned(),
            slug: "image-grayscale".to_owned(),
            kernel: Kernel::GrayscaleImage,
        },
    );
    r.push(
        BenchmarkDef {
            task: "grayscale".to_owned(),
            slug: "rust-manual-grayscale".to_owned(),
            kernel: Kernel::GrayscaleManual,
        },
    );
    r.push(
        BenchmarkDef {
            task: "blur".to_owned(),
            slug: "imageproc-blur".to_owned(),
            kernel: Kernel::BlurGaussian,
        },
    );
    r.push(
        BenchmarkDef {
            task: "edge_detect_sobel".to_owned(),
            slug: "imageproc-sobel".to_owned(),
            kernel: Kernel::SobelGradient,
        },
    );
    r.push(
        BenchmarkDef {
            task: "edge_detect_canny".to_owned(),
            slug: "imageproc-canny".to_owned(),
            kernel: Kernel::CannyDetect,
        },
    );
    r.push(
        BenchmarkDef {
            task: "rotate_90".to_owned(),
            slug: "image-rotate90".to_owned(),
            kernel: Kernel::Rotate90,
        },
    );
    r.push(
        BenchmarkDef {
            task: "rotate_arbitrary".to_owned(),
            slug: "rust-rotate45".to_owned(),
            kernel: Kernel::Rotate45Bilinear,
        },
    );
    r.push(
        BenchmarkDef {
            task: "lee_filter".to_owned(),
            slug: "rust-manual-lee".to_owned(),
            kernel: Kernel::LeeFilter,
        },
    );
    r
}

/// Restricts the catalog to the entries whose task equals the filter
/// exactly, keeping their order; no filter keeps every entry.  An
/// unmatched filter yields an empty result, not an error.
pub fn filter_by_task(defs: &Vec<BenchmarkDef>, task: Option<&String>) -> (r: Vec<BenchmarkDef>)
    ensures
        match task {
            Option::None => r@ == defs@,
            Option::Some(t) => r@ == defs@.filter(task_pred(t@)),
        },
{
    let mut r: Vec<BenchmarkDef> = Vec::new();
    match task {
        Option::None => {
            let n: usize = defs.len();
            let mut i: usize = 0;
            while i < n
                invariant
                    n == defs@.len(),
                    i <= n,
                    r@ == defs@.take(i as int),
                decreases n - i,
            {
                r.push(defs[i].duplicate());
                proof {
                    assert(defs@.take(i + 1) =~= defs@.take(i as int).push(defs@[i as int]));
                }
                i = i + 1;
            }
            proof {
                assert(defs@.take(n as int) =~= defs@);
            }
        },
        Option::Some(t) => {
            let n: usize = defs.len();
            let mut i: usize = 0;
            while i < n
                invariant
                    n == defs@.len(),
                    i <= n,
                    r@ == defs@.take(i as int).filter(task_pred(t@)),
                decreases n - i,
            {
                proof {
                    reveal(Seq::filter);
                    assert(defs@.take(i + 1) =~= defs@.take(i as int).push(defs@[i as int]));
                    assert(defs@.take(i + 1).drop_last() =~= defs@.take(i as int));
                }
                if defs[i].task.eq(t) {
                    r.push(defs[i].duplicate());
                }
                i = i + 1;
            }
            proof {
                assert(defs@.take(n as int) =~= defs@);
            }
        },
    }
    r
}

} // verus!
