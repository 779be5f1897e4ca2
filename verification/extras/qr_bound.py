"""Why the library draws the QR codes of texts of at most 213 bytes.

`qrcode` tries eight masks on a code and adds up their penalty scores in 16 bits.
This shows that a text of at most 213 bytes, at its error correction level M,
takes a code of version 13 at most, and that no square of modules of that size or
a smaller one, whatever it holds, scores 65536 or more.
"""

# Bits that a code of version 1, 2, ... 13 holds at level M.
CAPACITY = [128, 224, 352, 512, 688, 864, 992, 1232, 1456, 1728, 2032, 2320, 2672]

NUMERIC, ALPHA, BYTE, KANJI = range(4)


def size(mode, n):
    """Bits of a segment of n bytes, as counted for versions 10 to 26."""
    return [16 + (10 * n + 2) // 3, 15 + (11 * n + 1) // 2, 20 + 8 * n, 14 + 13 * (n // 2)][mode]


def union(a, b):
    """The mode of two segments that are merged."""
    if a == b:
        return a
    return ALPHA if {a, b} == {NUMERIC, ALPHA} else BYTE


def most_bits(limit):
    """For each length up to limit, the most bits that a text of so many bytes can
    take: over all ways to cut it into segments, merged greedily from the left."""
    done = [[[-1] * (limit + 1) for _ in range(4)] for _ in range(limit + 1)]
    for mode in range(4):
        step = 2 if mode == KANJI else 1
        for n in range(step, limit + 1, step):
            done[n][mode][n] = 0
    most = [0] * (limit + 1)
    for used in range(1, limit + 1):
        for mode in range(4):
            for n in range(1, used + 1):
                before = done[used][mode][n]
                if before < 0:
                    continue
                total = before + size(mode, n)
                most[used] = max(most[used], total)
                for other in range(4):
                    both = union(mode, other)
                    step = 2 if other == KANJI else 1
                    for m in range(step, limit - used + 1, step):
                        if size(mode, n) + size(other, m) >= size(both, n + m):
                            row, at, value = done[used + m][both], n + m, before
                        else:
                            row, at, value = done[used + m][other], m, total
                        row[at] = max(row[at], value)
    return most


FINDER = (1, 0, 1, 1, 1, 0, 1)


def best_row(width):
    """The most that one row can score: n - 2 for a run of n >= 5 modules of one
    colour, and 40 for a finder pattern with four light modules, or the edge, on
    one of its sides."""
    rows = {((0,) * 10, 0, None, 0): 0}
    for _ in range(width):
        longer = {}
        for (seen, after, colour, run), score in rows.items():
            for bit in (0, 1):
                gain = 0
                length = min(run + 1, 5) if bit == colour else 1
                if length == 5:
                    gain += 1 if run == 5 else 3
                # `after` counts the light modules since a pattern that has no
                # light modules before it, plus one.
                waiting = after + 1 if after and bit == 0 else 0
                if waiting == 5:
                    gain, waiting = gain + 40, 0
                window = seen + (bit,)
                if window[-7:] == FINDER:
                    if any(window[:4]):
                        waiting = 1
                    else:
                        gain += 40
                key = (window[1:], waiting, bit, length)
                longer[key] = max(longer.get(key, -1), score + gain)
        rows = longer
    return max(score + (40 if key[1] else 0) for key, score in rows.items())


def most_score(version):
    """No square of that size scores more: rows and columns, all 2x2 blocks of one
    colour at 3 each, and at most 100 for the balance; the nine patterns of the
    finders themselves are taken off again in each direction."""
    width = 17 + 4 * version
    return 2 * (width * best_row(width) - 360) + 3 * (width - 1) ** 2 + 100


bits = most_bits(213)
print("bits of 213 bytes at most", max(bits))
assert max(bits) <= CAPACITY[12]
for version in range(1, 14):
    print("version", version, "scores at most", most_score(version))
    assert most_score(version) < 65536
