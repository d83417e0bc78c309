use freivald::{vector_equals, Fp, Matrix, ShapeError};

fn vector(values: &[u64]) -> Vec<Fp> {
    values.iter().map(|x| Fp::new(*x)).collect()
}

fn matrix(rows: &[&[u64]]) -> Matrix {
    Matrix(rows.iter().map(|row| vector(row)).collect())
}

#[test]
fn test_mul() {
    let a: Vec<Fp> = vec![Fp::new(3), Fp::new(4)];
    let b: Vec<Fp> = vec![Fp::new(8), Fp::new(2)];
    let c: Vec<Fp> = vec![Fp::new(1), Fp::new(5)];
    let m = Matrix(vec![b, c]);

    assert_eq!(Ok(vec![Fp::new(15), Fp::new(6)]), m.mul(&a));
}

#[test]
fn mul_by_identity_returns_the_vector() {
    let id = matrix(&[&[1, 0, 0], &[0, 1, 0], &[0, 0, 1]]);
    let v = vector(&[5, 11, 16]);
    assert_eq!(id.mul(&v), Ok(v));
}

#[test]
fn mul_three_by_three() {
    let m = matrix(&[&[1, 2, 3], &[4, 5, 6], &[16, 16, 16]]);
    let v = vector(&[7, 8, 9]);
    // 7 + 16 + 27 = 50, 28 + 40 + 54 = 122, 16 * 24 = 384
    assert_eq!(m.mul(&v), Ok(vector(&[50 % 17, 122 % 17, 384 % 17])));
    assert_eq!(m.mul(&v), Ok(vector(&[16, 3, 10])));
}

#[test]
fn mul_is_not_the_identity_map() {
    let m = matrix(&[&[2, 0], &[0, 2]]);
    let v = vector(&[9, 10]);
    assert_eq!(m.mul(&v), Ok(vector(&[1, 3])));
}

#[test]
fn mul_of_empty_operands_is_empty() {
    let m = Matrix::new(Vec::new());
    assert_eq!(m.mul(&Vec::new()), Ok(Vec::new()));
}

#[test]
fn mul_refuses_a_vector_of_another_length() {
    let m = matrix(&[&[1, 2], &[3, 4]]);
    assert_eq!(m.mul(&vector(&[1, 2, 3])), Err(ShapeError::ShapeMismatch));
    assert_eq!(m.mul(&vector(&[1])), Err(ShapeError::ShapeMismatch));
    assert_eq!(m.mul(&Vec::new()), Err(ShapeError::ShapeMismatch));
}

#[test]
fn mul_refuses_rows_of_another_length() {
    let ragged = matrix(&[&[1, 2], &[3]]);
    assert_eq!(ragged.mul(&vector(&[1, 2])), Err(ShapeError::ShapeMismatch));
    let wide = matrix(&[&[1, 2, 3], &[4, 5, 6]]);
    assert_eq!(wide.mul(&vector(&[1, 2, 3])), Err(ShapeError::ShapeMismatch));
    assert_eq!(wide.mul(&vector(&[1, 2])), Err(ShapeError::ShapeMismatch));
}

#[test]
fn square_test() {
    let m = matrix(&[&[1, 2], &[3, 4]]);
    assert!(m.is_square_of(2));
    assert!(!m.is_square_of(1));
    assert!(!m.is_square_of(3));
    assert!(!matrix(&[&[1, 2], &[3]]).is_square_of(2));
    assert!(Matrix::new(Vec::new()).is_square_of(0));
    assert_eq!(m.len(), 2);
}

#[test]
fn vectors_compare_by_length_and_elements() {
    assert!(vector_equals(&vector(&[1, 2, 3]), &vector(&[18, 19, 20])));
    assert!(!vector_equals(&vector(&[1, 2, 3]), &vector(&[1, 2, 4])));
    assert!(!vector_equals(&vector(&[1, 2, 3]), &vector(&[1, 2])));
    assert!(vector_equals(&Vec::new(), &Vec::new()));
}

#[test]
fn matrices_compare_by_shape_and_elements() {
    let m = matrix(&[&[1, 2], &[3, 4]]);
    assert!(m.equals(&matrix(&[&[1, 2], &[3, 4]])));
    assert!(m.equals(&matrix(&[&[18, 2], &[3, 21]])));
    assert!(!m.equals(&matrix(&[&[1, 2], &[3, 5]])));
    assert!(!m.equals(&matrix(&[&[1, 2]])));
    assert!(!m.equals(&matrix(&[&[1, 2], &[3]])));
    assert!(!matrix(&[&[], &[]]).equals(&matrix(&[&[]])));
    assert!(Matrix::new(Vec::new()).equals(&Matrix::new(Vec::new())));
}
