//! Reading embeddings out of the tensors that the search models return, and
//! laying out the tokens that the text model takes.
use itertools::Itertools;
use vstd::prelude::*;
use crate::errors::ErrorKind;

verus! {

/// Where to find the model that embeds images for search.
#[derive(Debug)]
pub struct ImageVisualize {
    pub model_path: String,
    pub model_name: String,
}

impl ImageVisualize {
    /// A handle for the model at `path`, known as `name`.
    pub fn new(path: String, name: String) -> (handle: Self)
        ensures
            handle.model_path == path,
            handle.model_name == name,
    {
        ImageVisualize { model_path: path, model_name: name }
    }
}

/// Number of rows that `len` values make when each row takes `size` of
/// them and the last takes what is left.
pub open spec fn row_count(len: int, size: int) -> int {
    (len + size - 1) / size
}

/// Where row `r` ends in the flat tensor.
pub open spec fn row_end(len: int, size: int, r: int) -> int {
    if (r + 1) * size <= len {
        (r + 1) * size
    } else {
        len
    }
}

/// Row `r` of a flat tensor whose rows take `size` values each.
pub open spec fn row_of<T>(flat: Seq<T>, size: int, r: int) -> Seq<T> {
    flat.subrange(r * size, row_end(flat.len() as int, size, r))
}

/// The rows of a flat tensor, made by `chunks` of itertools: the values are
/// dealt out in their order, `size` to each row, and the last row takes what
/// is left, so that no row is empty. `chunks` panics on a size of zero.
#[verifier::external_body]
fn chunk_rows<T: Copy>(flat: &Vec<T>, size: usize) -> (rows: Vec<Vec<T>>)
    requires
        size > 0,
    ensures
        rows.len() == row_count(flat.len() as int, size as int),
        forall|r: int| 0 <= r < rows.len() ==> (#[trigger] rows[r])@ == row_of(flat@, size as int, r),
{
    flat.iter().copied().chunks(size).into_iter().map(|chunk| chunk.collect()).collect()
}

/// Every row before the last is full, and every row lies inside the flat
/// tensor.
pub proof fn lemma_row_bounds(len: int, size: int, r: int)
    by (nonlinear_arith)
    requires
        size > 0,
        len >= 0,
        0 <= r < row_count(len, size),
    ensures
        0 <= r * size < len,
        r * size < row_end(len, size, r) <= len,
        r + 1 < row_count(len, size) ==> row_end(len, size, r) == (r + 1) * size,
        r + 1 == row_count(len, size) ==> row_end(len, size, r) == len,
        (r + 1) * size == r * size + size,
{
}

/// A tensor without values has no rows, and any other has at least one.
pub proof fn lemma_row_count(len: int, size: int)
    by (nonlinear_arith)
    requires
        size > 0,
        len >= 0,
    ensures
        row_count(len, size) >= 0,
        row_count(len, size) == 0 <==> len == 0,
        len <= size ==> row_count(len, size) <= 1,
{
}

/// The first row of a tensor that is held flat and whose rows take
/// `seq_len` values each: its first `seq_len` values, or all of them when
/// there are fewer. Fails on a row length of zero and on a tensor without
/// values, and only then.
pub fn first_row<T: Copy>(flat: &Vec<T>, seq_len: usize) -> (result: Result<Vec<T>, ErrorKind>)
    ensures
        result is Err <==> seq_len == 0 || flat.len() == 0,
        result is Err ==> result->Err_0 == ErrorKind::TensorShapeMismatch,
        result is Ok ==> result->Ok_0@ == flat@.take(
            if seq_len <= flat.len() {
                seq_len as int
            } else {
                flat.len() as int
            },
        ),
{
    if seq_len == 0 || flat.len() == 0 {
        return Err(ErrorKind::TensorShapeMismatch);
    }
    let mut rows = chunk_rows(flat, seq_len);
    proof {
        lemma_row_count(flat.len() as int, seq_len as int);
        lemma_row_bounds(flat.len() as int, seq_len as int, 0);
        assert(rows[0]@ == row_of(flat@, seq_len as int, 0));
    }
    let row = rows.remove(0);
    Ok(row)
}

/// The values of a tensor that is held flat, read row by row, where a row
/// takes `seq_len` values: all of them, in their order. Fails on a row
/// length of zero, and only then.
pub fn try_extract<T: Copy>(flat: &Vec<T>, seq_len: usize) -> (result: Result<Vec<T>, ErrorKind>)
    ensures
        result is Err <==> seq_len == 0,
        result is Err ==> result->Err_0 == ErrorKind::TensorShapeMismatch,
        result is Ok ==> result->Ok_0@ == flat@,
{
    if seq_len == 0 {
        return Err(ErrorKind::TensorShapeMismatch);
    }
    let rows = chunk_rows(flat, seq_len);
    let ghost len = flat.len() as int;
    let ghost size = seq_len as int;
    let mut values: Vec<T> = Vec::new();
    let mut r: usize = 0;
    proof {
        lemma_row_count(len, size);
    }
    while r < rows.len()
        invariant
            r <= rows.len(),
            size > 0,
            len == flat.len(),
            rows.len() == row_count(len, size),
            forall|k: int| 0 <= k < rows.len() ==> (#[trigger] rows[k])@ == row_of(flat@, size, k),
            r < rows.len() ==> values@ == flat@.take(r * size),
            r == rows.len() ==> values@ == flat@,
        decreases rows.len() - r,
    {
        let row = &rows[r];
        proof {
            lemma_row_bounds(len, size, r as int);
            assert(row@ == row_of(flat@, size, r as int));
        }
        let ghost start = r * size;
        let mut k: usize = 0;
        while k < row.len()
            invariant
                k <= row.len(),
                0 <= start,
                start + row.len() <= flat.len(),
                row@ == flat@.subrange(start, start + row.len()),
                values@ == flat@.take(start + k),
            decreases row.len() - k,
        {
            values.push(row[k]);
            assert(values@ =~= flat@.take(start + k + 1));
            k += 1;
        }
        proof {
            if r + 1 == rows.len() {
                assert(values@ =~= flat@);
            }
        }
        r += 1;
    }
    Ok(values)
}

/// The tokens of a batch of texts as the text model takes them: `rows`
/// texts of `columns` tokens each, held row by row.
#[derive(Debug, PartialEq, Eq)]
pub struct TokenMatrix {
    pub rows: usize,
    pub columns: usize,
    pub values: Vec<i64>,
}

/// The matrix holds the given numbers, each as it is, in `rows` rows of
/// equal length.
pub open spec fn lays_out(matrix: TokenMatrix, numbers: Seq<u32>, rows: int) -> bool {
    &&& matrix.rows == rows
    &&& matrix.columns == numbers.len() / (rows as nat)
    &&& matrix.rows * matrix.columns == numbers.len()
    &&& matrix.values.len() == numbers.len()
    &&& forall|i: int| 0 <= i < numbers.len() ==> matrix.values[i] == numbers[i]
}

/// Lays the numbers out in `rows` rows. Fails when there is no row to put
/// them in or when they do not fill the rows evenly, and only then.
fn lay_out(numbers: &[u32], rows: usize) -> (result: Result<TokenMatrix, ErrorKind>)
    ensures
        result is Err <==> rows == 0 || numbers.len() % rows != 0,
        result is Err ==> result->Err_0 == ErrorKind::TensorShapeMismatch,
        result is Ok ==> lays_out(result->Ok_0, numbers@, rows as int),
{
    if rows == 0 || numbers.len() % rows != 0 {
        return Err(ErrorKind::TensorShapeMismatch);
    }
    let columns: usize = numbers.len() / rows;
    let mut values: Vec<i64> = Vec::new();
    let mut i: usize = 0;
    while i < numbers.len()
        invariant
            i <= numbers.len(),
            values.len() == i,
            forall|j: int| 0 <= j < i ==> values[j] == numbers[j],
        decreases numbers.len() - i,
    {
        values.push(numbers[i] as i64);
        i += 1;
    }
    proof {
        let n = numbers.len() as int;
        let d = rows as int;
        assert(d * (n / d) == n) by (nonlinear_arith)
            requires
                d > 0,
                n >= 0,
                n % d == 0,
        ;
    }
    Ok(TokenMatrix { rows, columns, values })
}

/// The token ids of `texts` texts as the text model takes them. Fails when
/// there is no text or when the ids do not fill the rows evenly, and only
/// then.
pub fn get_input_ids_vector(ids: &[u32], texts: usize) -> (result: Result<TokenMatrix, ErrorKind>)
    ensures
        result is Err <==> texts == 0 || ids.len() % texts != 0,
        result is Err ==> result->Err_0 == ErrorKind::TensorShapeMismatch,
        result is Ok ==> lays_out(result->Ok_0, ids@, texts as int),
{
    lay_out(ids, texts)
}

/// The attention mask of `texts` texts as the text model takes it. Fails
/// when there is no text or when the mask does not fill the rows evenly,
/// and only then.
pub fn get_attention_mask_vector(mask: &[u32], texts: usize) -> (result: Result<
    TokenMatrix,
    ErrorKind,
>)
    ensures
        result is Err <==> texts == 0 || mask.len() % texts != 0,
        result is Err ==> result->Err_0 == ErrorKind::TensorShapeMismatch,
        result is Ok ==> lays_out(result->Ok_0, mask@, texts as int),
{
    lay_out(mask, texts)
}

} // verus!
