//! Copies between arrays of one rank.

use erabasic_vm::array_ops::{array_coordinates, array_offset, copy_shared_array_extent};
use erabasic_vm::fault::VmError;
use erabasic_vm::value::VmValue;

/// The copy cell by cell.
fn scalar_copy(
    source: &[VmValue],
    source_dimensions: &Vec<u64>,
    destination: &mut [VmValue],
    destination_dimensions: &Vec<u64>,
) -> Result<(), VmError> {
    for (offset, destination) in destination.iter_mut().enumerate() {
        let mut coordinates: Vec<u64> = vec![0; destination_dimensions.len()];
        array_coordinates(destination_dimensions, offset, &mut coordinates)?;
        if coordinates
            .iter()
            .zip(source_dimensions)
            .any(|(index, length)| index >= length)
        {
            continue;
        }
        let source_offset = array_offset(source_dimensions, &coordinates)?;
        *destination = source
            .get(source_offset)
            .ok_or_else(|| {
                VmError::invalid_state("ARRAYCOPY source storage has an invalid length")
            })?
            .clone();
    }
    Ok(())
}

#[test]
fn bulk_arraycopy_matches_scalar_extents_and_preserves_unshared_cells() {
    let shapes: Vec<Vec<u64>> = vec![
        vec![1],
        vec![3],
        vec![7],
        vec![1, 4],
        vec![2, 2],
        vec![3, 3],
        vec![1, 2, 3],
        vec![2, 1, 4],
        vec![3, 3, 2],
    ];
    for strings in [false, true] {
        for source_shape in &shapes {
            for destination_shape in shapes
                .iter()
                .filter(|shape| shape.len() == source_shape.len())
            {
                let length =
                    |shape: &[u64]| usize::try_from(shape.iter().product::<u64>()).unwrap();
                let value = |index: usize| {
                    if strings {
                        VmValue::String(format!("玄関🙂{index}"))
                    } else {
                        VmValue::Integer(i64::try_from(index).unwrap())
                    }
                };
                let source = (0..length(source_shape)).map(value).collect::<Vec<_>>();
                let mut actual = (100..100 + length(destination_shape))
                    .map(value)
                    .collect::<Vec<_>>();
                let mut expected = actual.clone();
                scalar_copy(&source, source_shape, &mut expected, destination_shape).unwrap();
                copy_shared_array_extent(&source, source_shape, &mut actual, destination_shape)
                    .unwrap();
                assert_eq!(
                    actual, expected,
                    "{source_shape:?} -> {destination_shape:?}"
                );
            }
        }
    }
}

#[test]
fn bulk_arraycopy_retains_scalar_errors_for_invalid_storage() {
    for (source_shape, destination_shape, source_length, destination_length) in [
        (vec![3], vec![3], 2, 3),
        (vec![3], vec![3], 3, 4),
        (vec![0], vec![0], 0, 1),
        (vec![0], vec![0], 0, 0),
        (vec![u64::MAX, 2], vec![u64::MAX, 2], 2, 2),
    ] {
        let source = vec![VmValue::Integer(7); source_length];
        let mut actual = vec![VmValue::Integer(9); destination_length];
        let mut expected = actual.clone();
        let previous = scalar_copy(&source, &source_shape, &mut expected, &destination_shape);
        let optimized =
            copy_shared_array_extent(&source, &source_shape, &mut actual, &destination_shape);
        assert_eq!(optimized, previous);
        assert_eq!(actual, expected);
    }
}

#[test]
fn a_smaller_rectangle_lands_in_the_corner_of_a_larger_one() {
    let source = vec![
        VmValue::Integer(1),
        VmValue::Integer(2),
        VmValue::Integer(3),
        VmValue::Integer(4),
    ];
    let mut destination = vec![VmValue::Integer(0); 9];
    copy_shared_array_extent(&source, &vec![2, 2], &mut destination, &vec![3, 3]).unwrap();
    let numbers: Vec<i64> = destination
        .iter()
        .map(|value| match value {
            VmValue::Integer(n) => *n,
            _ => panic!("integer"),
        })
        .collect();
    assert_eq!(numbers, [1, 2, 0, 3, 4, 0, 0, 0, 0]);
}

#[test]
fn coordinates_and_offsets_are_inverse() {
    let dimensions: Vec<u64> = vec![2, 3, 4];
    for offset in 0..24 {
        let mut coordinates: Vec<u64> = vec![0; 3];
        array_coordinates(&dimensions, offset, &mut coordinates).unwrap();
        assert_eq!(array_offset(&dimensions, &coordinates).unwrap(), offset);
    }
    let mut last: Vec<u64> = vec![0; 3];
    array_coordinates(&dimensions, 23, &mut last).unwrap();
    assert_eq!(last, [1, 2, 3]);
}
