//! Layouts in which cells are produced and consumed.

use vstd::prelude::*;

verus! {

/// The traversal order of a rectangular cell region.
#[derive(Clone, Copy, Debug, PartialEq, Eq, Structural)]
pub enum DataOrder {
    RowMajor,
    ColumnMajor,
}

/// Whether `order` occurs in `orders` before index `end`.
pub open spec fn order_in_prefix(orders: Seq<DataOrder>, order: DataOrder, end: int) -> bool {
    exists|i: int| 0 <= i < end && i < orders.len() && orders[i] == order
}

/// Whether `order` occurs anywhere in `orders`.
pub open spec fn order_supported(orders: Seq<DataOrder>, order: DataOrder) -> bool {
    order_in_prefix(orders, order, orders.len() as int)
}

/// Whether the plan and the destination both support `order`.
pub open spec fn order_common(
    src_orders: Seq<DataOrder>,
    dst_orders: Seq<DataOrder>,
    order: DataOrder,
) -> bool {
    order_supported(src_orders, order) && order_supported(dst_orders, order)
}

/// Whether `orders` lists `o`.
pub fn contains_order(orders: &Vec<DataOrder>, o: DataOrder) -> (r: bool)
    ensures
        r <==> order_supported(orders@, o),
{
    let mut i: usize = 0;
    while i < orders.len()
        invariant
            i <= orders.len(),
            !order_in_prefix(orders@, o, i as int),
        decreases orders.len() - i,
    {
        if orders[i] == o {
            assert(order_supported(orders@, o));
            return true;
        }
        i += 1;
    }
    false
}

/// The dispatcher's probe-step order selection: among the orders that the
/// source's plan and the destination both support, row-major is preferred;
/// nothing is picked exactly when they have no order in common.
pub fn select_data_order(src_orders: &Vec<DataOrder>, dst_orders: &Vec<DataOrder>) -> (r: Option<
    DataOrder,
>)
    ensures
        r == Some(DataOrder::RowMajor) <==> order_common(
            src_orders@,
            dst_orders@,
            DataOrder::RowMajor,
        ),
        r == Some(DataOrder::ColumnMajor) <==> (!order_common(
            src_orders@,
            dst_orders@,
            DataOrder::RowMajor,
        ) && order_common(src_orders@, dst_orders@, DataOrder::ColumnMajor)),
        r is None <==> forall|o: DataOrder|
            order_supported(src_orders@, o) ==> !order_supported(dst_orders@, o),
{
    if contains_order(src_orders, DataOrder::RowMajor) && contains_order(
        dst_orders,
        DataOrder::RowMajor,
    ) {
        return Some(DataOrder::RowMajor);
    }
    if contains_order(src_orders, DataOrder::ColumnMajor) && contains_order(
        dst_orders,
        DataOrder::ColumnMajor,
    ) {
        return Some(DataOrder::ColumnMajor);
    }
    proof {
        assert forall|o: DataOrder|
            order_supported(src_orders@, o) implies !order_supported(dst_orders@, o) by {
            if o == DataOrder::RowMajor {
            } else {
                assert(o == DataOrder::ColumnMajor);
            }
        }
    }
    None
}

} // verus!
