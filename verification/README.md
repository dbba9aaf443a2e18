# kzg10

The polynomial commitment scheme of Kate, Zaverucha and Goldberg over the
pairing-friendly curve BLS12-377, written and proved in Verus.

* `src/` is the verified library. Group elements are held by their encodings,
  and contracts speak of them through the factor by which a fixed generator is
  multiplied. The arithmetic of the curve, its pairing and its field comes from
  the snarkVM crates, behind functions whose contracts are taken on trust; their
  doc comments name the function that each of them calls.
  * `modular`, `field`, `group`, `pairing`, `polynomial`: the mathematics.
  * `prime`, `certificate`: the proof that the order of the groups is prime.
  * `kzg10`, `setup`, `commit`, `open`, `check`, `bounds`: the scheme.
  * `data_structures`, `error`, `tables`, `encoding`: parameters, keys, errors,
    and parameters as bytes.
  * `laws`: what holds of the scheme as a whole, such as that the proof which an
    opening gives is accepted for the value of the polynomial and for no other.
* `tests/` runs the scheme, with the real curve.
* `app/` offers the scheme to callers with a random generator of any type.
